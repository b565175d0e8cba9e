//! The course of a run: signing in with both accounts, planning, asking the user, executing, and
//! signing out again.
//!
//! A [`Session`] says what to do next and takes in how that went.

use vstd::prelude::*;

use crate::execute::ExecuteError;
use crate::ids::UserKind;
use crate::messages::{
    about_user, display_with_sources, joined, messages_with_cause, put_before, single_message,
    text_about_user, with_cause,
};
use crate::plan::FatalPlanError;
use crate::state::AccessError;
use crate::text::{same_str, texts};

verus! {

/// What ends a run early.
pub enum Error {
    InitLogging(AccessError),
    DifferentServers,
    InitClient(UserKind, AccessError),
    LogIn(UserKind, AccessError),
    /// The failed attempts to log out have been reported on their own.
    LogOut,
    InitClientState(UserKind, AccessError),
    MakePlan(FatalPlanError),
    ExecutePlan(ExecuteError),
}

/// How to sign in with an account.
pub struct Account {
    /// There is an access token, so there is a session already.
    pub has_token: bool,
    /// There is a password, so the user is not asked for it.
    pub has_password: bool,
}

/// What the user wants of a run.
pub struct Config {
    pub old_url: String,
    pub new_url: String,
    pub old_account: Account,
    pub new_account: Account,
    /// The plan is shown with made-up names of rooms.
    pub anonymize: bool,
    /// The plan is shown but not executed.
    pub dry_run: bool,
}

impl Config {
    /// Whether a session is created for an account.
    pub open spec fn creates_session(self, kind: UserKind) -> bool {
        match kind {
            UserKind::Old => !self.old_account.has_token,
            UserKind::New => !self.new_account.has_token,
        }
    }

    /// Whether the user is asked for the password of an account.
    pub open spec fn asks_password(self, kind: UserKind) -> bool {
        match kind {
            UserKind::Old => !self.old_account.has_password,
            UserKind::New => !self.new_account.has_password,
        }
    }
}

/// What to do next.
#[derive(Clone, Copy, PartialEq, Eq, Structural, Debug)]
pub enum Step {
    Connect(UserKind),
    AskPassword(UserKind),
    LogIn(UserKind),
    /// Ask the server whose account it is.
    Identify(UserKind),
    MakePlan,
    /// Make up names under which the rooms of the plan are shown.
    Anonymize,
    /// Show the plan and the warnings.
    ShowPlan,
    /// Ask the user whether to go on.
    Confirm,
    Execute,
    LogOut(UserKind),
}

/// How a step went.
pub enum Outcome {
    Success,
    Failure(AccessError),
    /// There is no plan.
    NoPlan(FatalPlanError),
    /// The user does not want to go on.
    Declined,
    /// The execution encountered errors.
    Executed(ExecuteError),
}

/// How far a run has come.
pub enum Stage {
    /// A step before the end of the run is known.
    Doing(Step),
    /// The end of the run is known, but sessions are left to log out from: one, and maybe another
    /// after it.
    Ending { log_out: UserKind, log_out_after: Option<UserKind>, result: Result<(), Error> },
    Finished(Result<(), Error>),
}

/// Ends a run, but logs out from some sessions first.
pub open spec fn ending(
    first: Option<UserKind>,
    second: Option<UserKind>,
    result: Result<(), Error>,
) -> Stage {
    match (first, second) {
        (Some(log_out), log_out_after) => Stage::Ending { log_out, log_out_after, result },
        (None, Some(log_out)) => Stage::Ending { log_out, log_out_after: None, result },
        (None, None) => Stage::Finished(result),
    }
}

/// The account of a kind, if a session was created for it.
pub open spec fn created(config: Config, kind: UserKind) -> Option<UserKind> {
    if config.creates_session(kind) {
        Some(kind)
    } else {
        None
    }
}

/// Ends a run while the account of a kind is being signed in with, in which case it has no session
/// yet. The old account is signed in with first.
pub open spec fn give_up(config: Config, kind: UserKind, error: Error) -> Stage {
    match kind {
        UserKind::Old => Stage::Finished(Err(error)),
        UserKind::New => ending(created(config, UserKind::Old), None, Err(error)),
    }
}

/// Ends a run while both accounts are signed in with.
pub open spec fn wrap_up(config: Config, result: Result<(), Error>) -> Stage {
    ending(created(config, UserKind::Old), created(config, UserKind::New), result)
}

/// The stage of a run that begins. Accounts on different servers are not supported.
pub open spec fn first_stage(config: Config) -> Stage {
    if config.old_url@ != config.new_url@ {
        Stage::Finished(Err(Error::DifferentServers))
    } else {
        Stage::Doing(Step::Connect(UserKind::Old))
    }
}

/// The stage after a step before the end of the run is known.
pub open spec fn after_step(config: Config, step: Step, outcome: Outcome) -> Stage {
    match step {
        Step::Connect(kind) => match outcome {
            Outcome::Failure(error) => give_up(config, kind, Error::InitClient(kind, error)),
            _ => if !config.creates_session(kind) {
                Stage::Doing(Step::Identify(kind))
            } else if config.asks_password(kind) {
                Stage::Doing(Step::AskPassword(kind))
            } else {
                Stage::Doing(Step::LogIn(kind))
            },
        },
        Step::AskPassword(kind) => Stage::Doing(Step::LogIn(kind)),
        Step::LogIn(kind) => match outcome {
            Outcome::Failure(error) => give_up(config, kind, Error::LogIn(kind, error)),
            _ => Stage::Doing(Step::Identify(kind)),
        },
        Step::Identify(kind) => match outcome {
            Outcome::Failure(error) => ending(
                created(config, kind),
                if kind is New {
                    created(config, UserKind::Old)
                } else {
                    None
                },
                Err(Error::InitClientState(kind, error)),
            ),
            _ => match kind {
                UserKind::Old => Stage::Doing(Step::Connect(UserKind::New)),
                UserKind::New => Stage::Doing(Step::MakePlan),
            },
        },
        Step::MakePlan => match outcome {
            Outcome::NoPlan(error) => wrap_up(config, Err(Error::MakePlan(error))),
            _ => if config.anonymize {
                Stage::Doing(Step::Anonymize)
            } else {
                Stage::Doing(Step::ShowPlan)
            },
        },
        Step::Anonymize => Stage::Doing(Step::ShowPlan),
        Step::ShowPlan => if config.dry_run {
            wrap_up(config, Ok(()))
        } else {
            Stage::Doing(Step::Confirm)
        },
        Step::Confirm => match outcome {
            Outcome::Success => Stage::Doing(Step::Execute),
            _ => wrap_up(config, Ok(())),
        },
        Step::Execute => match outcome {
            Outcome::Executed(error) => wrap_up(config, Err(Error::ExecutePlan(error))),
            _ => wrap_up(config, Ok(())),
        },
        Step::LogOut(_) => Stage::Doing(step),
    }
}

/// What a run ends with after an attempt to log out: an attempt that fails only counts if nothing
/// else went wrong.
pub open spec fn result_after(result: Result<(), Error>, outcome: Outcome) -> Result<(), Error> {
    if result is Ok && outcome is Failure {
        Err(Error::LogOut)
    } else {
        result
    }
}

impl Stage {
    /// What to do at a stage.
    pub open spec fn spec_step(self) -> Option<Step> {
        match self {
            Stage::Doing(step) => Some(step),
            Stage::Ending { log_out, .. } => Some(Step::LogOut(log_out)),
            Stage::Finished(_) => None,
        }
    }

    /// The stage after a step.
    pub open spec fn next(self, config: Config, outcome: Outcome) -> Stage {
        match self {
            Stage::Doing(step) => after_step(config, step, outcome),
            Stage::Ending { log_out_after, result, .. } => ending(
                log_out_after,
                None,
                result_after(result, outcome),
            ),
            Stage::Finished(_) => self,
        }
    }
}

/// Whether a session that was created for an account is open at a stage.
pub open spec fn is_open(config: Config, stage: Stage, kind: UserKind) -> bool {
    match stage {
        Stage::Doing(step) => config.creates_session(kind) && match step {
            Step::Connect(UserKind::Old) => false,
            Step::AskPassword(UserKind::Old) => false,
            Step::LogIn(UserKind::Old) => false,
            Step::Identify(UserKind::Old) => kind is Old,
            Step::Connect(UserKind::New) => kind is Old,
            Step::AskPassword(UserKind::New) => kind is Old,
            Step::LogIn(UserKind::New) => kind is Old,
            _ => true,
        },
        Stage::Ending { log_out, log_out_after, .. } => kind == log_out || Some(kind)
            == log_out_after,
        Stage::Finished(_) => false,
    }
}

/// Whether sessions are only created and ended for accounts without an access token, and the two
/// sessions that are left to log out from are different ones.
pub open spec fn is_orderly(config: Config, stage: Stage) -> bool {
    match stage {
        Stage::Doing(step) => match step {
            Step::AskPassword(kind) => config.creates_session(kind) && config.asks_password(kind),
            Step::LogIn(kind) => config.creates_session(kind),
            Step::Anonymize => config.anonymize,
            Step::Confirm => !config.dry_run,
            Step::Execute => !config.dry_run,
            Step::LogOut(_) => false,
            _ => true,
        },
        Stage::Ending { log_out, log_out_after, .. } => config.creates_session(log_out)
            && log_out_after != Some(log_out) && (log_out_after matches Some(kind)
            ==> config.creates_session(kind)),
        Stage::Finished(_) => true,
    }
}

/// Every session that was created is logged out from exactly once before the run ends, whatever
/// goes wrong, and no other session ever is: a session is opened by logging in and closed by
/// logging out, and none is open when the run begins or when it has ended.
pub proof fn law_sessions_are_closed(config: Config, stage: Stage, outcome: Outcome, kind: UserKind)
    ensures
        is_orderly(config, first_stage(config)),
        !is_open(config, first_stage(config), kind),
        stage is Finished ==> !is_open(config, stage, kind),
        is_orderly(config, stage) ==> {
            let next = stage.next(config, outcome);
            &&& is_orderly(config, next)
            &&& stage.spec_step() == Some(Step::LogIn(kind)) ==> {
                &&& !is_open(config, stage, kind)
                &&& is_open(config, next, kind) == !(outcome is Failure)
            }
            &&& stage.spec_step() == Some(Step::LogOut(kind)) ==> {
                &&& config.creates_session(kind)
                &&& is_open(config, stage, kind)
                &&& !is_open(config, next, kind)
            }
            &&& stage.spec_step() != Some(Step::LogIn(kind)) && stage.spec_step() != Some(
                Step::LogOut(kind),
            ) ==> is_open(config, next, kind) == is_open(config, stage, kind)
        },
{
}

/// A plan is only executed right after the user has agreed to it, and never in a dry run.
pub proof fn law_execution_is_confirmed(config: Config, stage: Stage, outcome: Outcome)
    requires
        is_orderly(config, stage),
        stage.next(config, outcome) == Stage::Doing(Step::Execute),
    ensures
        stage == Stage::Doing(Step::Confirm),
        outcome is Success,
        !config.dry_run,
{
}

/// How many steps are left at most.
pub open spec fn steps_left(stage: Stage) -> nat {
    match stage {
        Stage::Doing(step) => match step {
            Step::Connect(UserKind::Old) => 15,
            Step::AskPassword(UserKind::Old) => 14,
            Step::LogIn(UserKind::Old) => 13,
            Step::Identify(UserKind::Old) => 12,
            Step::Connect(UserKind::New) => 11,
            Step::AskPassword(UserKind::New) => 10,
            Step::LogIn(UserKind::New) => 9,
            Step::Identify(UserKind::New) => 8,
            Step::MakePlan => 7,
            Step::Anonymize => 6,
            Step::ShowPlan => 5,
            Step::Confirm => 4,
            Step::Execute => 3,
            Step::LogOut(_) => 0,
        },
        Stage::Ending { log_out_after: Some(_), .. } => 2,
        Stage::Ending { log_out_after: None, .. } => 1,
        Stage::Finished(_) => 0,
    }
}

/// Every step brings a run closer to its end.
pub proof fn law_run_ends(config: Config, stage: Stage, outcome: Outcome)
    requires
        is_orderly(config, stage),
        !(stage is Finished),
    ensures
        steps_left(stage.next(config, outcome)) < steps_left(stage),
{
}

impl Config {
    fn is_created(&self, kind: UserKind) -> (creates: bool)
        ensures
            creates == self.creates_session(kind),
    {
        match kind {
            UserKind::Old => !self.old_account.has_token,
            UserKind::New => !self.new_account.has_token,
        }
    }

    fn is_asked(&self, kind: UserKind) -> (asks: bool)
        ensures
            asks == self.asks_password(kind),
    {
        match kind {
            UserKind::Old => !self.old_account.has_password,
            UserKind::New => !self.new_account.has_password,
        }
    }

    fn created(&self, kind: UserKind) -> (session: Option<UserKind>)
        ensures
            session == created(*self, kind),
    {
        if self.is_created(kind) {
            Some(kind)
        } else {
            None
        }
    }
}

impl Stage {
    fn ending(first: Option<UserKind>, second: Option<UserKind>, result: Result<(), Error>) -> (stage:
        Stage)
        ensures
            stage == ending(first, second, result),
    {
        match first {
            Some(log_out) => Stage::Ending { log_out, log_out_after: second, result },
            None => match second {
                Some(log_out) => Stage::Ending { log_out, log_out_after: None, result },
                None => Stage::Finished(result),
            },
        }
    }

    fn give_up(config: &Config, kind: UserKind, error: Error) -> (stage: Stage)
        ensures
            stage == give_up(*config, kind, error),
    {
        match kind {
            UserKind::Old => Stage::Finished(Err(error)),
            UserKind::New => Stage::ending(config.created(UserKind::Old), None, Err(error)),
        }
    }

    fn wrap_up(config: &Config, result: Result<(), Error>) -> (stage: Stage)
        ensures
            stage == wrap_up(*config, result),
    {
        Stage::ending(config.created(UserKind::Old), config.created(UserKind::New), result)
    }

    fn after_step(config: &Config, step: Step, outcome: Outcome) -> (stage: Stage)
        ensures
            stage == after_step(*config, step, outcome),
    {
        match step {
            Step::Connect(kind) => match outcome {
                Outcome::Failure(error) => Stage::give_up(
                    config,
                    kind,
                    Error::InitClient(kind, error),
                ),
                _ => if !config.is_created(kind) {
                    Stage::Doing(Step::Identify(kind))
                } else if config.is_asked(kind) {
                    Stage::Doing(Step::AskPassword(kind))
                } else {
                    Stage::Doing(Step::LogIn(kind))
                },
            },
            Step::AskPassword(kind) => Stage::Doing(Step::LogIn(kind)),
            Step::LogIn(kind) => match outcome {
                Outcome::Failure(error) => Stage::give_up(config, kind, Error::LogIn(kind, error)),
                _ => Stage::Doing(Step::Identify(kind)),
            },
            Step::Identify(kind) => match outcome {
                Outcome::Failure(error) => {
                    let other = match kind {
                        UserKind::Old => None,
                        UserKind::New => config.created(UserKind::Old),
                    };
                    Stage::ending(
                        config.created(kind),
                        other,
                        Err(Error::InitClientState(kind, error)),
                    )
                },
                _ => match kind {
                    UserKind::Old => Stage::Doing(Step::Connect(UserKind::New)),
                    UserKind::New => Stage::Doing(Step::MakePlan),
                },
            },
            Step::MakePlan => match outcome {
                Outcome::NoPlan(error) => Stage::wrap_up(config, Err(Error::MakePlan(error))),
                _ => if config.anonymize {
                    Stage::Doing(Step::Anonymize)
                } else {
                    Stage::Doing(Step::ShowPlan)
                },
            },
            Step::Anonymize => Stage::Doing(Step::ShowPlan),
            Step::ShowPlan => if config.dry_run {
                Stage::wrap_up(config, Ok(()))
            } else {
                Stage::Doing(Step::Confirm)
            },
            Step::Confirm => match outcome {
                Outcome::Success => Stage::Doing(Step::Execute),
                _ => Stage::wrap_up(config, Ok(())),
            },
            Step::Execute => match outcome {
                Outcome::Executed(error) => Stage::wrap_up(config, Err(Error::ExecutePlan(error))),
                _ => Stage::wrap_up(config, Ok(())),
            },
            Step::LogOut(_) => Stage::Doing(step),
        }
    }
}

/// A run of the tool.
pub struct Session {
    config: Config,
    stage: Stage,
}

impl Session {
    /// What the user wants of the run.
    pub closed spec fn spec_config(self) -> Config {
        self.config
    }

    /// How far the run has come.
    pub closed spec fn spec_stage(self) -> Stage {
        self.stage
    }

    #[verifier::type_invariant]
    closed spec fn valid(self) -> bool {
        is_orderly(self.config, self.stage)
    }

    /// A run that begins.
    pub fn new(config: Config) -> (session: Session)
        ensures
            session.spec_config() == config,
            session.spec_stage() == first_stage(config),
    {
        let stage = if same_str(config.old_url.as_str(), config.new_url.as_str()) {
            Stage::Doing(Step::Connect(UserKind::Old))
        } else {
            Stage::Finished(Err(Error::DifferentServers))
        };
        Session { config, stage }
    }

    /// What to do next; `None` if the run has ended.
    pub fn step(&self) -> (step: Option<Step>)
        ensures
            step == self.spec_stage().spec_step(),
    {
        match &self.stage {
            Stage::Doing(step) => Some(*step),
            Stage::Ending { log_out, .. } => Some(Step::LogOut(*log_out)),
            Stage::Finished(_) => None,
        }
    }

    /// Takes in how a step went.
    pub fn resume(self, outcome: Outcome) -> (session: Session)
        ensures
            session.spec_config() == self.spec_config(),
            session.spec_stage() == self.spec_stage().next(self.spec_config(), outcome),
    {
        proof {
            use_type_invariant(&self);
            law_sessions_are_closed(self.config, self.stage, outcome, UserKind::Old);
        }
        let Session { config, stage } = self;
        let stage = match stage {
            Stage::Doing(step) => Stage::after_step(&config, step, outcome),
            Stage::Ending { log_out_after, result, .. } => {
                let result = match (result, outcome) {
                    (Ok(_), Outcome::Failure(_)) => Err(Error::LogOut),
                    (result, _) => result,
                };
                Stage::ending(log_out_after, None, result)
            },
            Stage::Finished(result) => Stage::Finished(result),
        };
        Session { config, stage }
    }

    /// How the run ended; `None` if it has not.
    pub fn result(self) -> (result: Option<Result<(), Error>>)
        ensures
            match self.spec_stage() {
                Stage::Finished(end) => result == Some(end),
                _ => result is None,
            },
    {
        match self.stage {
            Stage::Finished(result) => Some(result),
            _ => None,
        }
    }
}

impl Error {
    /// The messages of the error and its causes.
    pub open spec fn spec_messages(self) -> Seq<Seq<char>> {
        match self {
            Error::InitLogging(cause) => with_cause("failed to initialize logging"@, cause),
            Error::DifferentServers => seq![
                "migration between different homeservers is currently unsupported"@,
            ],
            Error::InitClient(kind, cause) => with_cause(
                about_user("failed to initialize matrix client for "@, kind),
                cause,
            ),
            Error::LogIn(kind, cause) => with_cause(
                about_user("failed to log in to "@, kind),
                cause,
            ),
            Error::LogOut => seq!["failed to log out one or both users"@],
            Error::InitClientState(kind, cause) => with_cause(
                about_user("failed to initialize state accessor for "@, kind),
                cause,
            ),
            Error::MakePlan(error) => seq!["failed to compute migration plan"@]
                + error.spec_messages(),
            Error::ExecutePlan(error) => seq![
                "failed to execute migration plan"@,
                error.message(),
            ],
        }
    }

    /// The messages of the error and its causes.
    pub fn messages(&self) -> (messages: Vec<String>)
        ensures
            texts(messages@) == self.spec_messages(),
    {
        match self {
            Error::InitLogging(cause) => messages_with_cause(
                String::from_str("failed to initialize logging"),
                cause,
            ),
            Error::DifferentServers => single_message(
                String::from_str("migration between different homeservers is currently unsupported"),
            ),
            Error::InitClient(kind, cause) => messages_with_cause(
                text_about_user("failed to initialize matrix client for ", *kind),
                cause,
            ),
            Error::LogIn(kind, cause) => messages_with_cause(
                text_about_user("failed to log in to ", *kind),
                cause,
            ),
            Error::LogOut => single_message(
                String::from_str("failed to log out one or both users"),
            ),
            Error::InitClientState(kind, cause) => messages_with_cause(
                text_about_user("failed to initialize state accessor for ", *kind),
                cause,
            ),
            Error::MakePlan(error) => put_before(
                "failed to compute migration plan",
                error.messages(),
            ),
            Error::ExecutePlan(error) => {
                let messages = put_before(
                    "failed to execute migration plan",
                    single_message(error.to_text()),
                );
                assert(texts(messages@) =~= self.spec_messages());
                messages
            },
        }
    }

    /// The error and its causes, as they are shown to the user.
    pub fn report(&self) -> (text: String)
        ensures
            text@ == "Error: "@ + joined(self.spec_messages(), "\n  Caused by: "@),
    {
        let mut text = String::from_str("Error: ");
        text.append(display_with_sources(&self.messages(), "\n  Caused by: ").as_str());
        text
    }
}

} // verus!

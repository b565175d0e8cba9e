//! Laws about the course of a run, stated over what the user wants and how each step went.

use vstd::prelude::*;

use crate::ids::UserKind;
use crate::session::{first_stage, is_orderly, Config, Error, Outcome, Stage, Step};

verus! {

/// Whether an account comes without an access token, so that the run has to log in with it.
pub open spec fn lacks_token(config: Config, kind: UserKind) -> bool {
    match kind {
        UserKind::Old => !config.old_account.has_token,
        UserKind::New => !config.new_account.has_token,
    }
}

/// Whether an account comes without a password.
pub open spec fn lacks_password(config: Config, kind: UserKind) -> bool {
    match kind {
        UserKind::Old => !config.old_account.has_password,
        UserKind::New => !config.new_account.has_password,
    }
}

/// What a run ends with, once that is known.
pub open spec fn end_of(stage: Stage) -> Option<Result<(), Error>> {
    match stage {
        Stage::Doing(_) => None,
        Stage::Ending { result, .. } => Some(result),
        Stage::Finished(result) => Some(result),
    }
}

/// Whether there is a session left to log out from at a stage.
pub open spec fn is_left(stage: Stage, kind: UserKind) -> bool {
    stage matches Stage::Ending { log_out, log_out_after, .. } && (log_out == kind || log_out_after
        == Some(kind))
}

/// Accounts on different servers end a run at once, before anything is done, and with no session
/// left; else it begins with the old account.
pub proof fn law_servers_are_compared_first(config: Config)
    ensures
        config.old_url@ != config.new_url@ ==> first_stage(config) == Stage::Finished(
            Err(Error::DifferentServers),
        ),
        config.old_url@ == config.new_url@ ==> first_stage(config) == Stage::Doing(
            Step::Connect(UserKind::Old),
        ),
{
}

/// Whenever the user wants names to be made up, the plan is only ever shown after they were, and
/// else right after it was made, whatever else the user wants.
pub proof fn law_names_are_made_up_before_they_are_shown(
    config: Config,
    stage: Stage,
    outcome: Outcome,
)
    ensures
        stage.next(config, outcome) == Stage::Doing(Step::ShowPlan) ==> {
            &&& config.anonymize ==> stage == Stage::Doing(Step::Anonymize)
            &&& !config.anonymize && is_orderly(config, stage) ==> stage == Stage::Doing(
                Step::MakePlan,
            ) && !(outcome is NoPlan)
        },
        stage.next(config, outcome) == Stage::Doing(Step::Anonymize) ==> {
            &&& config.anonymize
            &&& stage == Stage::Doing(Step::MakePlan)
            &&& !(outcome is NoPlan)
        },
{
}

/// An account is signed in with as it can be: with its access token if it has one, else by logging
/// in, and the user is asked for a password only if that is needed and there is none.
pub proof fn law_accounts_are_signed_in_with(config: Config, kind: UserKind, outcome: Outcome)
    ensures
        ({
            let connected = Stage::Doing(Step::Connect(kind)).next(config, outcome);
            let asked = Stage::Doing(Step::AskPassword(kind)).next(config, outcome);
            let logged_in = Stage::Doing(Step::LogIn(kind)).next(config, outcome);
            &&& !(outcome is Failure) ==> {
                &&& !lacks_token(config, kind) ==> connected == Stage::Doing(Step::Identify(kind))
                &&& lacks_token(config, kind) && lacks_password(config, kind) ==> connected
                    == Stage::Doing(Step::AskPassword(kind))
                &&& lacks_token(config, kind) && !lacks_password(config, kind) ==> connected
                    == Stage::Doing(Step::LogIn(kind))
                &&& logged_in == Stage::Doing(Step::Identify(kind))
            }
            &&& asked == Stage::Doing(Step::LogIn(kind))
        }),
{
}

/// Where all goes well, the new account follows the old one, the plan follows both, the user is
/// asked about it after it was shown, and it is executed after they have agreed. In a dry run, the
/// run ends well after the plan was shown, and it also ends well if the user does not agree.
pub proof fn law_steps_follow_each_other(config: Config, outcome: Outcome)
    ensures
        ({
            let after = |step: Step| Stage::Doing(step).next(config, outcome);
            &&& !(outcome is Failure) ==> {
                &&& after(Step::Identify(UserKind::Old)) == Stage::Doing(
                    Step::Connect(UserKind::New),
                )
                &&& after(Step::Identify(UserKind::New)) == Stage::Doing(Step::MakePlan)
            }
            &&& !(outcome is NoPlan) ==> after(Step::MakePlan) == Stage::Doing(
                if config.anonymize {
                    Step::Anonymize
                } else {
                    Step::ShowPlan
                },
            )
            &&& after(Step::Anonymize) == Stage::Doing(Step::ShowPlan)
            &&& !config.dry_run ==> after(Step::ShowPlan) == Stage::Doing(Step::Confirm)
            &&& config.dry_run ==> end_of(after(Step::ShowPlan)) == Some(Ok::<(), Error>(()))
            &&& outcome is Success ==> after(Step::Confirm) == Stage::Doing(Step::Execute)
            &&& !(outcome is Success) ==> end_of(after(Step::Confirm)) == Some(Ok::<(), Error>(()))
            &&& !(outcome is Executed) ==> end_of(after(Step::Execute)) == Some(Ok::<(), Error>(()))
        }),
{
}

/// A step that goes wrong ends the run with an error that says which step it was, for which
/// account, and why.
pub proof fn law_failures_end_a_run(config: Config, kind: UserKind, outcome: Outcome)
    ensures
        ({
            let end_after = |step: Step| end_of(Stage::Doing(step).next(config, outcome));
            &&& outcome matches Outcome::Failure(cause) ==> {
                &&& end_after(Step::Connect(kind)) == Some(
                    Err::<(), Error>(Error::InitClient(kind, cause)),
                )
                &&& end_after(Step::LogIn(kind)) == Some(Err::<(), Error>(Error::LogIn(kind, cause)))
                &&& end_after(Step::Identify(kind)) == Some(
                    Err::<(), Error>(Error::InitClientState(kind, cause)),
                )
            }
            &&& outcome matches Outcome::NoPlan(cause) ==> end_after(Step::MakePlan) == Some(
                Err::<(), Error>(Error::MakePlan(cause)),
            )
            &&& outcome matches Outcome::Executed(cause) ==> end_after(Step::Execute) == Some(
                Err::<(), Error>(Error::ExecutePlan(cause)),
            )
        }),
{
}

/// How many accounts have been logged in with when a step is done: none, the old one, or both.
pub open spec fn logged_in_before(step: Step) -> nat {
    match step {
        Step::Connect(UserKind::Old) => 0,
        Step::AskPassword(UserKind::Old) => 0,
        Step::LogIn(UserKind::Old) => 0,
        Step::Identify(UserKind::Old) => 1,
        Step::Connect(UserKind::New) => 1,
        Step::AskPassword(UserKind::New) => 1,
        Step::LogIn(UserKind::New) => 1,
        _ => 2,
    }
}

/// When the end of a run is known, every account that was logged in with is left to log out from,
/// and no other: neither one that came with an access token, nor one that was not reached.
pub proof fn law_sessions_are_left_to_log_out_from(config: Config, step: Step, outcome: Outcome)
    requires
        is_orderly(config, Stage::Doing(step)),
    ensures
        ({
            let next = Stage::Doing(step).next(config, outcome);
            end_of(next) is Some ==> {
                &&& is_left(next, UserKind::Old) <==> lacks_token(config, UserKind::Old)
                    && logged_in_before(step) >= 1
                &&& is_left(next, UserKind::New) <==> lacks_token(config, UserKind::New)
                    && logged_in_before(step) >= 2
            }
        }),
{
}

/// Logging out goes through all sessions that are left, one after the other. An attempt that fails
/// does not keep the others from being made; it only counts for the end of the run if nothing else
/// went wrong.
pub proof fn law_all_sessions_are_logged_out_from(
    config: Config,
    stage: Stage,
    outcome: Outcome,
    kind: UserKind,
)
    requires
        is_orderly(config, stage),
        stage is Ending,
    ensures
        ({
            let next = stage.next(config, outcome);
            let now = stage->log_out;
            &&& stage.spec_step() == Some(Step::LogOut(now))
            &&& !is_left(next, now)
            &&& kind != now ==> (is_left(next, kind) <==> is_left(stage, kind))
            &&& end_of(stage)->0 is Ok && outcome is Failure ==> end_of(next) == Some(
                Err::<(), Error>(Error::LogOut),
            )
            &&& end_of(stage)->0 is Err || !(outcome is Failure) ==> end_of(next) == end_of(stage)
        }),
{
}

/// A run that has ended stays as it is, and there is nothing left to do.
pub proof fn law_ended_runs_stay(config: Config, stage: Stage, outcome: Outcome)
    requires
        stage is Finished,
    ensures
        stage.next(config, outcome) == stage,
        stage.spec_step() is None,
{
}

} // verus!

//! Planning and carrying out the migration from one Matrix user account to another.

pub mod anonymize;
pub mod direct;
pub mod direct_laws;
pub mod execute;
pub mod execute_laws;
pub mod execute_outcome;
pub mod id_laws;
pub mod ids;
pub mod json;
pub mod leave_outcome;
pub mod level_laws;
pub mod member_laws;
pub mod members;
pub mod message_laws;
pub mod messages;
pub mod plan;
pub mod plan_laws;
pub mod plan_outcome;
pub mod planner;
pub mod power_levels;
pub mod rate_limit;
pub mod report;
pub mod room;
pub mod room_laws;
pub mod room_outcome;
pub mod service_laws;
pub mod session;
pub mod session_laws;
pub mod show_laws;
pub mod state;
pub mod sync;
pub mod text;
pub mod text_map;


//! A job-scheduling daemon core: recurrence evaluation, a durable run log,
//! in-flight job tracking, a next-due cache, output capture and rendering,
//! and the dispatch decisions of the scheduler loop.

pub mod action;
pub mod assoc;
pub mod calendar;
pub mod config;
pub mod frequency;
pub mod job_result;
pub mod list_output;
pub mod local_time;
pub mod message;
pub mod next_run;
pub mod notify_definition;
pub mod program_output;
pub mod run_log;
pub mod running_jobs;
pub mod scheduler;
pub mod text;

//! Job-queue logic of a distributed K prover: job records, the choice of the
//! next job, S3 object naming, prover arguments and verdicts, and the rows and
//! reports of the monitor.
pub mod dev;
pub mod ids;
pub mod job;
pub mod k;
pub mod order;
pub mod queue;
pub mod report;
pub mod s3;
pub mod text;
pub mod view;

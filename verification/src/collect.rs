//! From a finished job's attributes to its record: the one pass that a
//! collector makes for each job.

use crate::attributes::AttributeMap;
use crate::domain::ComponentView;
use crate::names::{make_string_valid, sanitized};
use crate::record::{first_invalid_field, new_record, Field, InvalidField, Record, RecordView};
use crate::rules::{
    components_outcome, construct_components, EvalError, EvalErrorView, Settings, SettingsView,
};
use crate::text::{decimal_digits, decimal_string};
use crate::time::{in_range, parse_slurm_timestamp, parsed_datetime, TimestampError, SLURM_FORMAT};
use vstd::prelude::*;
use vstd::string::StringExecFns;

verus! {

/// Why no record could be made for a job.
#[derive(Debug)]
pub enum CollectError {
    /// The job lacks an attribute that every record needs.
    MissingAttribute { key: String },
    /// The rule configuration could not be evaluated.
    Rule(EvalError),
    /// The attribute `key` holds no usable timestamp.
    Timestamp { key: String, error: TimestampError },
    /// One of the record's identifiers is no valid name.
    InvalidField(InvalidField),
}

/// What a [`CollectError`] says.
pub enum CollectErrorView {
    MissingAttribute { key: Seq<char> },
    Rule(EvalErrorView),
    UnparsableTimestamp { key: Seq<char>, text: Seq<char> },
    TimestampOutOfRange { key: Seq<char>, seconds: i64 },
    InvalidField { field: Field, raw: Seq<char> },
}

impl View for CollectError {
    type V = CollectErrorView;

    open spec fn view(&self) -> CollectErrorView {
        match self {
            CollectError::MissingAttribute { key } => CollectErrorView::MissingAttribute {
                key: key@,
            },
            CollectError::Rule(e) => CollectErrorView::Rule(e@),
            CollectError::Timestamp { key, error } => match error {
                TimestampError::Unparsable { text, .. } => CollectErrorView::UnparsableTimestamp {
                    key: key@,
                    text: text@,
                },
                TimestampError::OutOfRange { seconds } => CollectErrorView::TimestampOutOfRange {
                    key: key@,
                    seconds: *seconds,
                },
            },
            CollectError::InvalidField(e) => CollectErrorView::InvalidField {
                field: e.field,
                raw: e.raw@,
            },
        }
    }
}

/// The identifier of the record of job `job_id`: the site's prefix
/// without forbidden characters, a hyphen, and the job's number.
pub open spec fn record_name(prefix: Seq<char>, job_id: u64) -> Seq<char> {
    sanitized(prefix) + "-"@ + decimal_digits(job_id as nat)
}

/// The point in time that the attribute `key` holds as `text`.
pub open spec fn timestamp_outcome(key: Seq<char>, text: Seq<char>) -> Result<
    int,
    CollectErrorView,
> {
    match parsed_datetime(text, SLURM_FORMAT@) {
        None => Err(CollectErrorView::UnparsableTimestamp { key, text }),
        Some(seconds) => if in_range(seconds as int) {
            Ok(seconds as int)
        } else {
            Err(CollectErrorView::TimestampOutOfRange { key, seconds })
        },
    }
}

/// The record of job `job_id` with the attributes `job` at a site with
/// the settings `config`, or why there is none. The steps, of which the
/// first that fails gives the error: the job has a `UserId` and a
/// `GroupId`; the rules give the components; `StartTime` is there and is a
/// timestamp; the four identifiers are valid names once sanitized;
/// `EndTime` is there and is a timestamp.
pub open spec fn collected(
    config: SettingsView,
    job_id: u64,
    job: Map<Seq<char>, Seq<char>>,
) -> Result<RecordView, CollectErrorView> {
    if !job.contains_key("UserId"@) {
        Err(CollectErrorView::MissingAttribute { key: "UserId"@ })
    } else if !job.contains_key("GroupId"@) {
        Err(CollectErrorView::MissingAttribute { key: "GroupId"@ })
    } else {
        match components_outcome(config.components, job) {
            Err(e) => Err(CollectErrorView::Rule(e)),
            Ok(components) => if !job.contains_key("StartTime"@) {
                Err(CollectErrorView::MissingAttribute { key: "StartTime"@ })
            } else {
                match timestamp_outcome("StartTime"@, job["StartTime"@]) {
                    Err(e) => Err(e),
                    Ok(start) => match first_invalid_field(
                        record_name(config.record_prefix, job_id),
                        config.site_id,
                        job["UserId"@],
                        job["GroupId"@],
                    ) {
                        Some((field, raw)) => Err(CollectErrorView::InvalidField { field, raw }),
                        None => if !job.contains_key("EndTime"@) {
                            Err(CollectErrorView::MissingAttribute { key: "EndTime"@ })
                        } else {
                            match timestamp_outcome("EndTime"@, job["EndTime"@]) {
                                Err(e) => Err(e),
                                Ok(stop) => Ok(
                                    RecordView {
                                        components,
                                        stop_time: Some(stop),
                                        ..new_record(
                                            record_name(config.record_prefix, job_id),
                                            config.site_id,
                                            job["UserId"@],
                                            job["GroupId"@],
                                            start,
                                        )
                                    },
                                ),
                            }
                        },
                    },
                }
            },
        }
    }
}

/// What a computed record or error says.
pub open spec fn collected_view(r: Result<Record, CollectError>) -> Result<
    RecordView,
    CollectErrorView,
> {
    match r {
        Ok(record) => Ok(record@),
        Err(e) => Err(e@),
    }
}

/// The identifier of the record of job `job_id` at a site with the prefix
/// `prefix`.
pub fn record_id_for(prefix: &str, job_id: u64) -> (name: String)
    ensures
        name@ == record_name(prefix@, job_id),
{
    let mut name = make_string_valid(prefix);
    name.append("-");
    name.append(decimal_string(job_id).as_str());
    name
}

/// The attribute `key` of `job`, which every record needs.
fn required<'a>(job: &'a AttributeMap, key: &str) -> (r: Result<&'a String, CollectError>)
    ensures
        match r {
            Ok(value) => job@.contains_key(key@) && value@ == job@[key@],
            Err(e) => !job@.contains_key(key@) && e@ == (CollectErrorView::MissingAttribute {
                key: key@,
            }),
        },
{
    match job.get(key) {
        Some(value) => Ok(value),
        None => Err(CollectError::MissingAttribute { key: key.to_owned() }),
    }
}

/// The point in time that the attribute `key` of `job` holds.
fn required_time(job: &AttributeMap, key: &str) -> (r: Result<crate::time::Timestamp, CollectError>)
    ensures
        match r {
            Ok(t) => job@.contains_key(key@) && timestamp_outcome(key@, job@[key@]) == Ok::<
                _,
                CollectErrorView,
            >(t@),
            Err(e) => if job@.contains_key(key@) {
                timestamp_outcome(key@, job@[key@]) == Err::<int, _>(e@)
            } else {
                e@ == (CollectErrorView::MissingAttribute { key: key@ })
            },
        },
{
    let text = match required(job, key) {
        Ok(text) => text,
        Err(e) => {
            return Err(e);
        },
    };
    match parse_slurm_timestamp(text.as_str()) {
        Ok(t) => Ok(t),
        Err(error) => Err(CollectError::Timestamp { key: key.to_owned(), error }),
    }
}

/// Builds the record of the finished job `job_id` from its attributes.
///
/// The record is named after the site's prefix and the job's number. Its
/// user and group come from the attributes `UserId` and `GroupId`, its
/// components from the site's rules, its start and stop from `StartTime`
/// and `EndTime`. Nothing is built in part: any failure ends the pass with
/// its error.
pub fn build_record(config: &Settings, job_id: u64, job: &AttributeMap) -> (r: Result<
    Record,
    CollectError,
>)
    ensures
        collected_view(r) == collected(config@, job_id, job@),
{
    let record_id = record_id_for(config.record_prefix.as_str(), job_id);
    let user_id = match required(job, "UserId") {
        Ok(value) => value.clone(),
        Err(e) => {
            return Err(e);
        },
    };
    let group_id = match required(job, "GroupId") {
        Ok(value) => value.clone(),
        Err(e) => {
            return Err(e);
        },
    };
    let components = match construct_components(config, job) {
        Ok(components) => components,
        Err(e) => {
            return Err(CollectError::Rule(e));
        },
    };
    let start = match required_time(job, "StartTime") {
        Ok(t) => t,
        Err(e) => {
            return Err(e);
        },
    };
    let record = match Record::new(record_id, config.site_id.clone(), user_id, group_id, start) {
        Ok(record) => record,
        Err(e) => {
            return Err(CollectError::InvalidField(e));
        },
    };
    let stop = match required_time(job, "EndTime") {
        Ok(t) => t,
        Err(e) => {
            return Err(e);
        },
    };
    let record = record.with_components(components).with_stop_time(stop);
    assert(Seq::<ComponentView>::empty() + record@.components == record@.components);
    Ok(record)
}

} // verus!

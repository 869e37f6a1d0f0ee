//! The accounting record of one job and how it is built.

use crate::domain::{
    clone_components, component_views, valid_component, Component, ComponentView,
};
use crate::names::{make_string_valid, sanitized, valid_name, ValidName};
use crate::time::{in_range, Timestamp};
use vstd::prelude::*;

verus! {

/// What a record is.
pub struct RecordView {
    pub record_id: Seq<char>,
    pub site_id: Seq<char>,
    pub user_id: Seq<char>,
    pub group_id: Seq<char>,
    pub components: Seq<ComponentView>,
    pub start_time: int,
    pub stop_time: Option<int>,
}

/// A record whose identifiers and components are valid and whose times
/// are in range.
pub open spec fn valid_record(record: RecordView) -> bool {
    &&& valid_name(record.record_id)
    &&& valid_name(record.site_id)
    &&& valid_name(record.user_id)
    &&& valid_name(record.group_id)
    &&& forall|i: int|
        0 <= i < record.components.len() ==> valid_component(#[trigger] record.components[i])
    &&& in_range(record.start_time)
    &&& record.stop_time matches Some(stop) ==> in_range(stop)
}

/// The runtime of a job in whole seconds: from its start to its stop,
/// once the stop is known.
pub open spec fn runtime_of(record: RecordView) -> Option<int> {
    match record.stop_time {
        Some(stop) => Some(stop - record.start_time),
        None => None,
    }
}

/// The identifiers of a record.
#[derive(Clone, Copy, Debug, PartialEq, Eq, Structural)]
pub enum Field {
    RecordId,
    SiteId,
    UserId,
    GroupId,
}

/// An identifier that is no valid name even without its forbidden
/// characters.
#[derive(Debug)]
pub struct InvalidField {
    /// Which identifier it is.
    pub field: Field,
    /// The identifier as it was given.
    pub raw: String,
}

/// The first of the four identifiers, in the order record, site, user,
/// group, that is no valid name once sanitized; with the identifier as
/// given.
pub open spec fn first_invalid_field(
    record_id: Seq<char>,
    site_id: Seq<char>,
    user_id: Seq<char>,
    group_id: Seq<char>,
) -> Option<(Field, Seq<char>)> {
    if !valid_name(sanitized(record_id)) {
        Some((Field::RecordId, record_id))
    } else if !valid_name(sanitized(site_id)) {
        Some((Field::SiteId, site_id))
    } else if !valid_name(sanitized(user_id)) {
        Some((Field::UserId, user_id))
    } else if !valid_name(sanitized(group_id)) {
        Some((Field::GroupId, group_id))
    } else {
        None
    }
}

/// The record that is built from four identifiers and a start: the
/// identifiers sanitized, no component yet, not stopped.
pub open spec fn new_record(
    record_id: Seq<char>,
    site_id: Seq<char>,
    user_id: Seq<char>,
    group_id: Seq<char>,
    start_time: int,
) -> RecordView {
    RecordView {
        record_id: sanitized(record_id),
        site_id: sanitized(site_id),
        user_id: sanitized(user_id),
        group_id: sanitized(group_id),
        components: Seq::empty(),
        start_time,
        stop_time: None,
    }
}

/// The accounting entry of one job.
#[derive(Debug)]
pub struct Record {
    record_id: ValidName,
    site_id: ValidName,
    user_id: ValidName,
    group_id: ValidName,
    components: Vec<Component>,
    start_time: Timestamp,
    stop_time: Option<Timestamp>,
}

/// The view of an optional point in time.
pub open spec fn time_view(t: Option<Timestamp>) -> Option<int> {
    match t {
        Some(t) => Some(t@),
        None => None,
    }
}

impl View for Record {
    type V = RecordView;

    closed spec fn view(&self) -> RecordView {
        RecordView {
            record_id: self.record_id@,
            site_id: self.site_id@,
            user_id: self.user_id@,
            group_id: self.group_id@,
            components: component_views(self.components@),
            start_time: self.start_time@,
            stop_time: time_view(self.stop_time),
        }
    }
}

/// Sanitizes one identifier and checks what is left.
fn checked_name(raw: String, field: Field) -> (r: Result<ValidName, InvalidField>)
    ensures
        match r {
            Ok(name) => valid_name(sanitized(raw@)) && name@ == sanitized(raw@),
            Err(e) => !valid_name(sanitized(raw@)) && e.field == field && e.raw@ == raw@,
        },
{
    match ValidName::parse(make_string_valid(raw.as_str())) {
        Some(name) => Ok(name),
        None => Err(InvalidField { field, raw }),
    }
}

impl Record {
    /// Starts the record of a job that began at `start_time`.
    ///
    /// Each identifier loses its forbidden characters and must then be a
    /// valid name. The first that is not, in the order record, site,
    /// user, group, is reported as it was given.
    pub fn new(
        record_id: String,
        site_id: String,
        user_id: String,
        group_id: String,
        start_time: Timestamp,
    ) -> (r: Result<Record, InvalidField>)
        ensures
            match r {
                Ok(record) => first_invalid_field(record_id@, site_id@, user_id@, group_id@)
                    is None && record@ == new_record(
                    record_id@,
                    site_id@,
                    user_id@,
                    group_id@,
                    start_time@,
                ),
                Err(e) => first_invalid_field(record_id@, site_id@, user_id@, group_id@) == Some(
                    (e.field, e.raw@),
                ),
            },
    {
        let record_id = match checked_name(record_id, Field::RecordId) {
            Ok(name) => name,
            Err(e) => {
                return Err(e);
            },
        };
        let site_id = match checked_name(site_id, Field::SiteId) {
            Ok(name) => name,
            Err(e) => {
                return Err(e);
            },
        };
        let user_id = match checked_name(user_id, Field::UserId) {
            Ok(name) => name,
            Err(e) => {
                return Err(e);
            },
        };
        let group_id = match checked_name(group_id, Field::GroupId) {
            Ok(name) => name,
            Err(e) => {
                return Err(e);
            },
        };
        let record = Record {
            record_id,
            site_id,
            user_id,
            group_id,
            components: Vec::new(),
            start_time,
            stop_time: None,
        };
        assert(record@.components == Seq::<ComponentView>::empty());
        Ok(record)
    }

    /// The record with `component` added after the components it has.
    pub fn with_component(self, component: Component) -> (r: Record)
        ensures
            r@ == (RecordView { components: self@.components.push(component@), ..self@ }),
    {
        let mut record = self;
        let ghost before = record.components@;
        record.components.push(component);
        assert(component_views(record.components@) == component_views(before).push(component@));
        record
    }

    /// The record with `components` added, in their order, after the
    /// components it has.
    pub fn with_components(self, components: Vec<Component>) -> (r: Record)
        ensures
            r@ == (RecordView {
                components: self@.components + component_views(components@),
                ..self@
            }),
    {
        let mut record = self;
        let mut components = components;
        let ghost before = record.components@;
        let ghost added = components@;
        record.components.append(&mut components);
        assert(component_views(record.components@) == component_views(before) + component_views(
            added,
        ));
        record
    }

    /// The record with the job's end set to `stop_time`. This is the only
    /// way in which a record gets a stop time.
    pub fn with_stop_time(self, stop_time: Timestamp) -> (r: Record)
        ensures
            r@ == (RecordView { stop_time: Some(stop_time@), ..self@ }),
    {
        let mut record = self;
        record.stop_time = Some(stop_time);
        record
    }

    /// The record's identifier.
    pub fn record_id(&self) -> (r: String)
        ensures
            r@ == self@.record_id,
            valid_name(r@),
    {
        self.record_id.to_string()
    }

    /// The site at which the job ran.
    pub fn site_id(&self) -> (r: String)
        ensures
            r@ == self@.site_id,
            valid_name(r@),
    {
        self.site_id.to_string()
    }

    /// The user who owns the job.
    pub fn user_id(&self) -> (r: String)
        ensures
            r@ == self@.user_id,
            valid_name(r@),
    {
        self.user_id.to_string()
    }

    /// The group that the job is accounted to.
    pub fn group_id(&self) -> (r: String)
        ensures
            r@ == self@.group_id,
            valid_name(r@),
    {
        self.group_id.to_string()
    }

    /// A copy of the record's components, in order.
    pub fn components(&self) -> (r: Vec<Component>)
        ensures
            component_views(r@) == self@.components,
    {
        clone_components(&self.components)
    }

    /// The record's components, in order, without copying them.
    pub fn components_ref(&self) -> (r: &Vec<Component>)
        ensures
            component_views(r@) == self@.components,
    {
        &self.components
    }

    /// When the job started.
    pub fn start_time(&self) -> (r: Timestamp)
        ensures
            r@ == self@.start_time,
            in_range(r@),
    {
        let _ = self.start_time.seconds();
        self.start_time
    }

    /// When the job stopped, once that is known.
    pub fn stop_time(&self) -> (r: Option<Timestamp>)
        ensures
            time_view(r) == self@.stop_time,
            r matches Some(t) ==> in_range(t@),
    {
        match self.stop_time {
            Some(t) => {
                let _ = t.seconds();
                Some(t)
            },
            None => None,
        }
    }

    /// The job's runtime in whole seconds: from start to stop; nothing
    /// before the stop is known.
    pub fn runtime(&self) -> (r: Option<i64>)
        ensures
            match r {
                Some(seconds) => runtime_of(self@) == Some(seconds as int),
                None => runtime_of(self@) is None,
            },
    {
        match &self.stop_time {
            Some(stop) => Some(self.start_time.seconds_until(stop)),
            None => None,
        }
    }
}

} // verus!

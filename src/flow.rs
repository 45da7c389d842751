//! The decisions of the two flows. The caller performs each remote call and
//! hands its outcome back; these functions say what happens next.
use vstd::prelude::*;
use crate::filter::{build_filter, filter_of};
use crate::hostnames::seq_views;
use crate::reconcile::{reconcile, reconciled, DeviceRecord, ReconciliationResult};

verus! {

/// The status code given to a remote call that could not complete.
pub const TRANSPORT_ERROR_CODE: i32 = 500;

/// Which change a tag mutation makes.
#[derive(Clone, Copy, Debug, PartialEq, Eq)]
pub enum TagAction {
    Add,
    Remove,
}

/// An item-level error reported by the inventory service.
#[derive(Clone, Debug, PartialEq, Eq)]
pub struct ApiError {
    pub code: i32,
    pub id: Option<String>,
    pub message: String,
}

/// What the inventory reports for one device of a tag mutation.
#[derive(Clone, Debug, PartialEq, Eq)]
pub struct TagResult {
    pub device_id: String,
    pub code: Option<i32>,
    pub updated: bool,
    pub error: Option<String>,
}

/// A completed identifier query: the matching device ids and any errors.
pub struct QueryResponse {
    pub resources: Vec<String>,
    pub errors: Vec<ApiError>,
}

/// A completed tag mutation: per-device results and any errors.
pub struct UpdateResponse {
    pub resources: Vec<TagResult>,
    pub errors: Vec<ApiError>,
}

/// A completed device detail fetch: the records and any errors.
pub struct DetailsResponse {
    pub resources: Vec<DeviceRecord>,
    pub errors: Vec<ApiError>,
}

/// Why a flow stopped.
#[derive(Clone, Debug, PartialEq, Eq)]
pub enum FlowError {
    /// The hostname input held no hostname.
    NoHostsProvided,
    /// A remote call could not complete.
    TransportError(ApiError),
    /// A remote call completed but reported item-level errors.
    ApiBatchError(Vec<ApiError>),
    /// No device identifier could be resolved from the input.
    ResolutionFailed(Vec<ApiError>),
}

/// The single tag mutation call to make.
pub struct TagRequest {
    pub action: TagAction,
    pub device_ids: Vec<String>,
    pub tags: Vec<String>,
}

/// What the tag flow does after the devices were resolved.
pub enum TagStep {
    /// Send this mutation, then hand its outcome to `after_update`.
    Update(TagRequest),
    /// The flow is over with this result.
    Finished(Result<Vec<TagResult>, FlowError>),
}

/// The action word the inventory service expects.
pub open spec fn action_text(a: TagAction) -> Seq<char> {
    match a {
        TagAction::Add => seq!['a', 'd', 'd'],
        TagAction::Remove => seq!['r', 'e', 'm', 'o', 'v', 'e'],
    }
}

/// The error that stands for a call that could not complete.
pub open spec fn transport_spec(message: String) -> ApiError {
    ApiError { code: TRANSPORT_ERROR_CODE, id: None, message }
}

/// What a call outcome means: any item-level error fails the call; with no
/// resources at all, it is `on_empty` that fails it.
pub open spec fn batch_result<T>(
    outcome: Result<(Vec<T>, Vec<ApiError>), String>,
    on_empty: bool,
) -> Result<Vec<T>, FlowError> {
    match outcome {
        Err(m) => Err(FlowError::TransportError(transport_spec(m))),
        Ok((res, errs)) => if errs.len() > 0 && res.len() == 0 && on_empty {
            Err(FlowError::ResolutionFailed(errs))
        } else if errs.len() > 0 {
            Err(FlowError::ApiBatchError(errs))
        } else {
            Ok(res)
        },
    }
}

/// The device ids that an identifier query resolved.
pub open spec fn resolution_of(outcome: Result<QueryResponse, String>) -> Result<Vec<String>, FlowError> {
    match outcome {
        Err(m) => batch_result(Err(m), true),
        Ok(q) => batch_result(Ok((q.resources, q.errors)), true),
    }
}

/// The per-device results of a tag mutation.
pub open spec fn update_result_of(outcome: Result<UpdateResponse, String>) -> Result<Vec<TagResult>, FlowError> {
    match outcome {
        Err(m) => batch_result(Err(m), false),
        Ok(u) => batch_result(Ok((u.resources, u.errors)), false),
    }
}

/// The device records of a detail fetch.
pub open spec fn details_result_of(outcome: Result<DetailsResponse, String>) -> Result<Vec<DeviceRecord>, FlowError> {
    match outcome {
        Err(m) => batch_result(Err(m), false),
        Ok(d) => batch_result(Ok((d.resources, d.errors)), false),
    }
}

/// The step for resolved device ids: nothing is sent for an empty id list.
pub open spec fn tag_plan_of(device_ids: Vec<String>, tags: Vec<String>, action: TagAction, r: TagStep) -> bool {
    if device_ids.len() == 0 {
        r matches TagStep::Finished(Ok(v)) && v.len() == 0
    } else {
        r == TagStep::Update(TagRequest { action, device_ids, tags })
    }
}

impl TagAction {
    /// The action word the inventory service expects.
    pub fn action_name(&self) -> (r: String)
        ensures
            r@ == action_text(*self),
    {
        match self {
            TagAction::Add => {
                proof {
                    reveal_strlit("add");
                }
                String::from_str("add")
            },
            TagAction::Remove => {
                proof {
                    reveal_strlit("remove");
                }
                String::from_str("remove")
            },
        }
    }

    /// Reads an action word; `None` for any word but the two known ones.
    pub fn parse(word: &str) -> (r: Option<TagAction>)
        ensures
            r matches Some(a) ==> action_text(a) == word@,
            r is None ==> word@ != action_text(TagAction::Add) && word@ != action_text(
                TagAction::Remove,
            ),
    {
        let w = String::from_str(word);
        let add = TagAction::Add.action_name();
        let remove = TagAction::Remove.action_name();
        if w == add {
            Some(TagAction::Add)
        } else if w == remove {
            Some(TagAction::Remove)
        } else {
            None
        }
    }
}

/// The error for a remote call that could not complete, with its message.
pub fn transport_error(message: String) -> (r: ApiError)
    ensures
        r == transport_spec(message),
{
    ApiError { code: TRANSPORT_ERROR_CODE, id: None, message }
}

fn settle_batch<T>(outcome: Result<(Vec<T>, Vec<ApiError>), String>, on_empty: bool) -> (r: Result<Vec<T>, FlowError>)
    ensures
        r == batch_result(outcome, on_empty),
{
    match outcome {
        Err(m) => Err(FlowError::TransportError(transport_error(m))),
        Ok((res, errs)) => {
            if errs.len() > 0 && res.len() == 0 && on_empty {
                Err(FlowError::ResolutionFailed(errs))
            } else if errs.len() > 0 {
                Err(FlowError::ApiBatchError(errs))
            } else {
                Ok(res)
            }
        },
    }
}

/// The filter expression to query with, or `NoHostsProvided` for an empty
/// hostname set.
pub fn begin_resolution(hostnames: &Vec<String>) -> (r: Result<String, FlowError>)
    ensures
        hostnames.len() == 0 ==> r == Err::<String, FlowError>(FlowError::NoHostsProvided),
        hostnames.len() > 0 ==> (r matches Ok(f) && f@ == filter_of(seq_views(hostnames@))),
{
    if hostnames.len() == 0 {
        Err(FlowError::NoHostsProvided)
    } else {
        Ok(build_filter(hostnames))
    }
}

/// The device ids of an identifier query. A call that could not complete
/// gives `TransportError`; errors with no ids give `ResolutionFailed`;
/// errors beside ids give `ApiBatchError`.
pub fn resolve_ids(outcome: Result<QueryResponse, String>) -> (r: Result<Vec<String>, FlowError>)
    ensures
        r == resolution_of(outcome),
{
    match outcome {
        Err(m) => settle_batch(Err(m), true),
        Ok(q) => settle_batch(Ok((q.resources, q.errors)), true),
    }
}

/// The tag mutation for the resolved ids; an empty id list sends nothing
/// and finishes with an empty result.
pub fn plan_tags(device_ids: Vec<String>, tags: Vec<String>, action: TagAction) -> (r: TagStep)
    ensures
        tag_plan_of(device_ids, tags, action, r),
{
    if device_ids.len() == 0 {
        TagStep::Finished(Ok(Vec::new()))
    } else {
        TagStep::Update(TagRequest { action, device_ids, tags })
    }
}

/// What the tag flow does once the identifier query is back: stop on a
/// failed resolution, otherwise go on with the mutation.
pub fn after_query(outcome: Result<QueryResponse, String>, tags: Vec<String>, action: TagAction) -> (r: TagStep)
    ensures
        match resolution_of(outcome) {
            Err(e) => r == TagStep::Finished(Err(e)),
            Ok(ids) => tag_plan_of(ids, tags, action, r),
        },
{
    match resolve_ids(outcome) {
        Err(e) => TagStep::Finished(Err(e)),
        Ok(ids) => plan_tags(ids, tags, action),
    }
}

/// The result of the tag flow once the mutation is back: any item-level
/// error fails the whole call.
pub fn after_update(outcome: Result<UpdateResponse, String>) -> (r: Result<Vec<TagResult>, FlowError>)
    ensures
        r == update_result_of(outcome),
{
    match outcome {
        Err(m) => settle_batch(Err(m), false),
        Ok(u) => settle_batch(Ok((u.resources, u.errors)), false),
    }
}

/// The device records of a detail fetch: any item-level error fails it.
pub fn details_records(outcome: Result<DetailsResponse, String>) -> (r: Result<Vec<DeviceRecord>, FlowError>)
    ensures
        r == details_result_of(outcome),
{
    match outcome {
        Err(m) => settle_batch(Err(m), false),
        Ok(d) => settle_batch(Ok((d.resources, d.errors)), false),
    }
}

/// The presence report of the alive-hosts flow once the detail fetch is
/// back.
pub fn alive_report(hostnames: &Vec<String>, outcome: Result<DetailsResponse, String>) -> (r: Result<ReconciliationResult, FlowError>)
    ensures
        match details_result_of(outcome) {
            Err(e) => r == Err::<ReconciliationResult, FlowError>(e),
            Ok(recs) => r matches Ok(rep) && reconciled(hostnames@, recs@, rep),
        },
{
    match details_records(outcome) {
        Err(e) => Err(e),
        Ok(recs) => Ok(reconcile(hostnames, &recs)),
    }
}

} // verus!

//! The administrative side of jobs: which rows a listing asks for and in
//! what order, and whether a job may be deleted.
//!
//! Nothing here touches a database. A listing is planned: its filters, its
//! order and its page. The caller runs the plan against the store.

use crate::context::AppContext;
use vstd::prelude::*;
use vstd::string::*;

verus! {

/// A column of the store, by table.
#[derive(Debug, Clone, Copy, PartialEq, Eq, Structural)]
pub enum Column {
    JobId,
    JobEid,
    JobCreatedUser,
    JobJobType,
    JobName,
    JobUpdatedTime,
    RunScheduleType,
    RunJobType,
    RunUpdatedUser,
    RunBindIp,
    RunUpdatedTime,
    ScheduleName,
}

/// Which listing a plan is for: the tables it reads and joins.
#[derive(Debug, Clone, Copy, PartialEq, Eq, Structural)]
pub enum Listing {
    /// Jobs, each with the name and command of its executor.
    Jobs,
    /// Run statuses, each with the name and snapshot of its schedule.
    RunStatus,
}

/// A condition on the rows.
#[derive(Debug, PartialEq, Eq)]
pub enum Filter {
    /// The column equals the value.
    Equals { column: Column, value: String },
    /// The column contains the value.
    Contains { column: Column, value: String },
    /// The first column is greater than `after` and the second less than
    /// `before`.
    Between { after_column: Column, after: String, before_column: Column, before: String },
}

/// The model of a [`Filter`].
pub enum FilterView {
    Equals { column: Column, value: Seq<char> },
    Contains { column: Column, value: Seq<char> },
    Between { after_column: Column, after: Seq<char>, before_column: Column, before: Seq<char> },
}

impl View for Filter {
    type V = FilterView;

    open spec fn view(&self) -> FilterView {
        match self {
            Filter::Equals { column, value } => FilterView::Equals {
                column: *column,
                value: value@,
            },
            Filter::Contains { column, value } => FilterView::Contains {
                column: *column,
                value: value@,
            },
            Filter::Between { after_column, after, before_column, before } => FilterView::Between {
                after_column: *after_column,
                after: after@,
                before_column: *before_column,
                before: before@,
            },
        }
    }
}

/// A sort key; earlier keys weigh more.
#[derive(Debug, PartialEq, Eq)]
pub enum Order {
    /// Rows whose column equals the number come first.
    FirstId { column: Column, id: u64 },
    /// Rows whose column equals the text come first.
    FirstText { column: Column, text: String },
    /// By the column, largest first.
    Descending { column: Column },
}

/// The model of an [`Order`].
pub enum OrderView {
    FirstId { column: Column, id: u64 },
    FirstText { column: Column, text: Seq<char> },
    Descending { column: Column },
}

impl View for Order {
    type V = OrderView;

    open spec fn view(&self) -> OrderView {
        match self {
            Order::FirstId { column, id } => OrderView::FirstId { column: *column, id: *id },
            Order::FirstText { column, text } => OrderView::FirstText {
                column: *column,
                text: text@,
            },
            Order::Descending { column } => OrderView::Descending { column: *column },
        }
    }
}

/// What a listing asks of the store. The total counts the rows that pass
/// the filters; the page holds `page_size` of them, in the order given, from
/// row `page * page_size` on.
#[derive(Debug, PartialEq, Eq)]
pub struct QueryPlan {
    pub listing: Listing,
    pub filters: Vec<Filter>,
    pub order: Vec<Order>,
    pub page: u64,
    pub page_size: u64,
}

/// The model of a [`QueryPlan`].
pub struct QueryPlanView {
    pub listing: Listing,
    pub filters: Seq<FilterView>,
    pub order: Seq<OrderView>,
    pub page: u64,
    pub page_size: u64,
}

/// The models of a list of filters.
pub open spec fn filters_view(v: Seq<Filter>) -> Seq<FilterView> {
    Seq::new(v.len(), |i: int| v[i]@)
}

/// The models of a list of sort keys.
pub open spec fn order_view(v: Seq<Order>) -> Seq<OrderView> {
    Seq::new(v.len(), |i: int| v[i]@)
}

impl View for QueryPlan {
    type V = QueryPlanView;

    open spec fn view(&self) -> QueryPlanView {
        QueryPlanView {
            listing: self.listing,
            filters: filters_view(self.filters@),
            order: order_view(self.order@),
            page: self.page,
            page_size: self.page_size,
        }
    }
}

/// The text of an optional string.
pub open spec fn opt_text(v: Option<String>) -> Option<Seq<char>> {
    match v {
        Some(s) => Some(s@),
        None => None,
    }
}

/// The texts of an optional pair of strings.
pub open spec fn opt_range(v: Option<(String, String)>) -> Option<(Seq<char>, Seq<char>)> {
    match v {
        Some(p) => Some((p.0@, p.1@)),
        None => None,
    }
}

/// The filter `column = value`, when a value is given.
pub open spec fn when_equals(column: Column, v: Option<Seq<char>>) -> Seq<FilterView> {
    match v {
        Some(value) => seq![FilterView::Equals { column, value }],
        None => Seq::empty(),
    }
}

/// The filter `column contains value`, when a value is given.
pub open spec fn when_contains(column: Column, v: Option<Seq<char>>) -> Seq<FilterView> {
    match v {
        Some(value) => seq![FilterView::Contains { column, value }],
        None => Seq::empty(),
    }
}

/// The filter `after_column > range.0 and before_column < range.1`, when a
/// range is given.
pub open spec fn when_between(
    after_column: Column,
    before_column: Column,
    v: Option<(Seq<char>, Seq<char>)>,
) -> Seq<FilterView> {
    match v {
        Some(r) => seq![
            FilterView::Between { after_column, after: r.0, before_column, before: r.1 },
        ],
        None => Seq::empty(),
    }
}

/// The filters of the job listing, in the order in which they are applied.
pub open spec fn job_filters(
    created_user: Option<Seq<char>>,
    job_type: Option<Seq<char>>,
    name: Option<Seq<char>>,
    updated_time_range: Option<(Seq<char>, Seq<char>)>,
) -> Seq<FilterView> {
    when_equals(Column::JobCreatedUser, created_user) + when_equals(Column::JobJobType, job_type)
        + when_contains(Column::JobName, name) + when_between(
        Column::JobUpdatedTime,
        Column::JobUpdatedTime,
        updated_time_range,
    )
}

/// The order of the job listing: the job with the default id first, then
/// the job with the default eid, then by id, largest first.
pub open spec fn job_order(default_id: Option<u64>, default_eid: Option<Seq<char>>) -> Seq<
    OrderView,
> {
    (match default_id {
        Some(id) => seq![OrderView::FirstId { column: Column::JobId, id }],
        None => Seq::empty(),
    }) + (match default_eid {
        Some(text) => seq![OrderView::FirstText { column: Column::JobEid, text }],
        None => Seq::empty(),
    }) + seq![OrderView::Descending { column: Column::JobId }]
}

/// The filters of the run listing, in the order in which they are applied.
/// Both bounds of the time range are held against the run's update time.
pub open spec fn run_filters(
    created_user: Option<Seq<char>>,
    bind_ip: Option<Seq<char>>,
    schedule_name: Option<Seq<char>>,
    schedule_type: Option<Seq<char>>,
    job_type: Option<Seq<char>>,
    updated_time_range: Option<(Seq<char>, Seq<char>)>,
) -> Seq<FilterView> {
    when_equals(Column::RunScheduleType, schedule_type) + when_equals(Column::RunJobType, job_type)
        + when_equals(Column::RunUpdatedUser, created_user) + when_contains(
        Column::RunBindIp,
        bind_ip,
    ) + when_contains(Column::ScheduleName, schedule_name) + when_between(
        Column::RunUpdatedTime,
        Column::RunUpdatedTime,
        updated_time_range,
    )
}

/// The filters of the plain run listing, which has none on the kinds.
pub open spec fn list_filters(
    created_user: Option<Seq<char>>,
    ip: Option<Seq<char>>,
    schedule_name: Option<Seq<char>>,
) -> Seq<FilterView> {
    when_equals(Column::RunUpdatedUser, created_user) + when_contains(Column::RunBindIp, ip)
        + when_contains(Column::ScheduleName, schedule_name)
}

/// The order of the run listings: by update time, latest first.
pub open spec fn run_order() -> Seq<OrderView> {
    seq![OrderView::Descending { column: Column::RunUpdatedTime }]
}

/// Why a request on jobs was refused.
#[derive(Debug, Clone, Copy, PartialEq, Eq, Structural)]
pub enum JobError {
    /// The job has been executed: it stays.
    ForbiddenDelete,
    /// The store gave no row for a count.
    CountFailed,
}

impl JobError {
    /// What the caller is told.
    pub fn message(&self) -> (m: String)
        ensures
            m@ == (match self {
                JobError::ForbiddenDelete => "forbidden to delete the executed jobs"@,
                JobError::CountFailed => "failed to count row"@,
            }),
    {
        match self {
            JobError::ForbiddenDelete => String::from_str("forbidden to delete the executed jobs"),
            JobError::CountFailed => String::from_str("failed to count row"),
        }
    }
}

fn add_equals(filters: &mut Vec<Filter>, column: Column, v: Option<String>)
    ensures
        filters_view(final(filters)@) == filters_view(old(filters)@) + when_equals(
            column,
            opt_text(v),
        ),
{
    match v {
        Some(value) => {
            filters.push(Filter::Equals { column, value });
        },
        None => {},
    }
    assert(filters_view(filters@) =~= filters_view(old(filters)@) + when_equals(
        column,
        opt_text(v),
    ));
}

fn add_contains(filters: &mut Vec<Filter>, column: Column, v: Option<String>)
    ensures
        filters_view(final(filters)@) == filters_view(old(filters)@) + when_contains(
            column,
            opt_text(v),
        ),
{
    match v {
        Some(value) => {
            filters.push(Filter::Contains { column, value });
        },
        None => {},
    }
    assert(filters_view(filters@) =~= filters_view(old(filters)@) + when_contains(
        column,
        opt_text(v),
    ));
}

fn add_between(
    filters: &mut Vec<Filter>,
    after_column: Column,
    before_column: Column,
    v: Option<(String, String)>,
)
    ensures
        filters_view(final(filters)@) == filters_view(old(filters)@) + when_between(
            after_column,
            before_column,
            opt_range(v),
        ),
{
    match v {
        Some(r) => {
            let (after, before) = r;
            filters.push(Filter::Between { after_column, after, before_column, before });
        },
        None => {},
    }
    assert(filters_view(filters@) =~= filters_view(old(filters)@) + when_between(
        after_column,
        before_column,
        opt_range(v),
    ));
}

/// The job logic of one process.
pub struct JobLogic<'a> {
    ctx: &'a AppContext,
}

impl<'a> JobLogic<'a> {
    /// The context that the logic was made with.
    pub closed spec fn context(&self) -> &'a AppContext {
        self.ctx
    }

    /// The job logic over a context.
    pub fn new(ctx: &'a AppContext) -> (logic: Self)
        ensures
            logic.context() == ctx,
    {
        Self { ctx }
    }

    /// The context that the logic was made with.
    pub fn ctx(&self) -> (ctx: &'a AppContext)
        ensures
            ctx == self.context(),
    {
        self.ctx
    }

    /// Plans the listing of jobs: a filter for each argument that is given,
    /// the default job first when one is named, then by id, largest first.
    pub fn query_job(
        &self,
        created_user: Option<String>,
        job_type: Option<String>,
        name: Option<String>,
        updated_time_range: Option<(String, String)>,
        default_id: Option<u64>,
        default_eid: Option<String>,
        page: u64,
        page_size: u64,
    ) -> (plan: QueryPlan)
        requires
            page_size > 0,
        ensures
            plan@ == (QueryPlanView {
                listing: Listing::Jobs,
                filters: job_filters(
                    opt_text(created_user),
                    opt_text(job_type),
                    opt_text(name),
                    opt_range(updated_time_range),
                ),
                order: job_order(default_id, opt_text(default_eid)),
                page,
                page_size,
            }),
    {
        let mut filters: Vec<Filter> = Vec::new();
        assert(filters_view(filters@) =~= Seq::<FilterView>::empty());
        add_equals(&mut filters, Column::JobCreatedUser, created_user);
        add_equals(&mut filters, Column::JobJobType, job_type);
        add_contains(&mut filters, Column::JobName, name);
        add_between(&mut filters, Column::JobUpdatedTime, Column::JobUpdatedTime, updated_time_range);
        assert(filters_view(filters@) =~= job_filters(
            opt_text(created_user),
            opt_text(job_type),
            opt_text(name),
            opt_range(updated_time_range),
        ));
        let mut order: Vec<Order> = Vec::new();
        match default_id {
            Some(id) => {
                order.push(Order::FirstId { column: Column::JobId, id });
            },
            None => {},
        }
        match default_eid {
            Some(text) => {
                order.push(Order::FirstText { column: Column::JobEid, text });
            },
            None => {},
        }
        order.push(Order::Descending { column: Column::JobId });
        assert(order_view(order@) =~= job_order(default_id, opt_text(default_eid)));
        QueryPlan { listing: Listing::Jobs, filters, order, page, page_size }
    }

    /// Decides on the deletion of the job `eid`: a job that has been
    /// executed stays, any other may go.
    pub fn delete_job(&self, eid: String, executed: bool) -> (r: Result<String, JobError>)
        ensures
            executed ==> r == Err::<String, JobError>(JobError::ForbiddenDelete),
            !executed ==> r == Ok::<String, JobError>(eid),
    {
        if executed {
            Err(JobError::ForbiddenDelete)
        } else {
            Ok(eid)
        }
    }

    /// Plans the plain listing of run statuses: a filter for each of the
    /// three arguments that is given, latest update first. The kinds of
    /// schedule and job do not filter.
    pub fn query_list(
        &self,
        created_user: Option<String>,
        ip: Option<String>,
        schedule_name: Option<String>,
        schedule_type: Option<String>,
        job_type: Option<String>,
        page: u64,
        page_size: u64,
    ) -> (plan: QueryPlan)
        requires
            page_size > 0,
        ensures
            plan@ == (QueryPlanView {
                listing: Listing::RunStatus,
                filters: list_filters(
                    opt_text(created_user),
                    opt_text(ip),
                    opt_text(schedule_name),
                ),
                order: run_order(),
                page,
                page_size,
            }),
    {
        let mut filters: Vec<Filter> = Vec::new();
        assert(filters_view(filters@) =~= Seq::<FilterView>::empty());
        add_equals(&mut filters, Column::RunUpdatedUser, created_user);
        add_contains(&mut filters, Column::RunBindIp, ip);
        add_contains(&mut filters, Column::ScheduleName, schedule_name);
        assert(filters_view(filters@) =~= list_filters(
            opt_text(created_user),
            opt_text(ip),
            opt_text(schedule_name),
        ));
        let mut order: Vec<Order> = Vec::new();
        order.push(Order::Descending { column: Column::RunUpdatedTime });
        assert(order_view(order@) =~= run_order());
        QueryPlan { listing: Listing::RunStatus, filters, order, page, page_size }
    }

    /// The total of the plain run listing from the row that the store gave
    /// for the count.
    pub fn count_row(&self, row: Option<u64>) -> (r: Result<u64, JobError>)
        ensures
            r == (match row {
                Some(n) => Ok::<u64, JobError>(n),
                None => Err::<u64, JobError>(JobError::CountFailed),
            }),
    {
        match row {
            Some(n) => Ok(n),
            None => Err(JobError::CountFailed),
        }
    }

    /// Plans the listing of run statuses: a filter for each argument that
    /// is given, latest update first.
    pub fn query_run_list(
        &self,
        created_user: Option<String>,
        bind_ip: Option<String>,
        schedule_name: Option<String>,
        schedule_type: Option<String>,
        job_type: Option<String>,
        updated_time_range: Option<(String, String)>,
        page: u64,
        page_size: u64,
    ) -> (plan: QueryPlan)
        requires
            page_size > 0,
        ensures
            plan@ == (QueryPlanView {
                listing: Listing::RunStatus,
                filters: run_filters(
                    opt_text(created_user),
                    opt_text(bind_ip),
                    opt_text(schedule_name),
                    opt_text(schedule_type),
                    opt_text(job_type),
                    opt_range(updated_time_range),
                ),
                order: run_order(),
                page,
                page_size,
            }),
    {
        let mut filters: Vec<Filter> = Vec::new();
        assert(filters_view(filters@) =~= Seq::<FilterView>::empty());
        add_equals(&mut filters, Column::RunScheduleType, schedule_type);
        add_equals(&mut filters, Column::RunJobType, job_type);
        add_equals(&mut filters, Column::RunUpdatedUser, created_user);
        add_contains(&mut filters, Column::RunBindIp, bind_ip);
        add_contains(&mut filters, Column::ScheduleName, schedule_name);
        add_between(&mut filters, Column::RunUpdatedTime, Column::RunUpdatedTime, updated_time_range);
        assert(filters_view(filters@) =~= run_filters(
            opt_text(created_user),
            opt_text(bind_ip),
            opt_text(schedule_name),
            opt_text(schedule_type),
            opt_text(job_type),
            opt_range(updated_time_range),
        ));
        let mut order: Vec<Order> = Vec::new();
        order.push(Order::Descending { column: Column::RunUpdatedTime });
        assert(order_view(order@) =~= run_order());
        QueryPlan { listing: Listing::RunStatus, filters, order, page, page_size }
    }
}

} // verus!

use automate::context::AppContext;
use automate::job::{Column, Filter, JobError, JobLogic, Listing, Order, QueryPlan};

fn s(x: &str) -> Option<String> {
    Some(String::from(x))
}

fn range(a: &str, b: &str) -> Option<(String, String)> {
    Some((String::from(a), String::from(b)))
}

#[test]
fn logic_keeps_its_context() {
    let ctx = AppContext::new("10.0.0.9");
    let logic = JobLogic::new(&ctx);
    assert_eq!(logic.ctx().local_ip(), "10.0.0.9");
}

#[test]
fn job_listing_without_arguments_orders_by_id() {
    let ctx = AppContext::new("10.0.0.9");
    let plan = JobLogic::new(&ctx).query_job(None, None, None, None, None, None, 0, 20);
    assert_eq!(
        plan,
        QueryPlan {
            listing: Listing::Jobs,
            filters: vec![],
            order: vec![Order::Descending { column: Column::JobId }],
            page: 0,
            page_size: 20,
        }
    );
}

#[test]
fn job_listing_with_all_arguments() {
    let ctx = AppContext::new("10.0.0.9");
    let plan = JobLogic::new(&ctx).query_job(
        s("alice"),
        s("default"),
        s("backup"),
        range("2024-01-01", "2024-02-01"),
        Some(42),
        s("j-abc"),
        3,
        50,
    );
    assert_eq!(
        plan,
        QueryPlan {
            listing: Listing::Jobs,
            filters: vec![
                Filter::Equals { column: Column::JobCreatedUser, value: String::from("alice") },
                Filter::Equals { column: Column::JobJobType, value: String::from("default") },
                Filter::Contains { column: Column::JobName, value: String::from("backup") },
                Filter::Between {
                    after_column: Column::JobUpdatedTime,
                    after: String::from("2024-01-01"),
                    before_column: Column::JobUpdatedTime,
                    before: String::from("2024-02-01"),
                },
            ],
            order: vec![
                Order::FirstId { column: Column::JobId, id: 42 },
                Order::FirstText { column: Column::JobEid, text: String::from("j-abc") },
                Order::Descending { column: Column::JobId },
            ],
            page: 3,
            page_size: 50,
        }
    );
}

#[test]
fn job_listing_skips_absent_arguments() {
    let ctx = AppContext::new("10.0.0.9");
    let plan = JobLogic::new(&ctx).query_job(None, s("bundle"), None, None, None, s("j-1"), 1, 10);
    assert_eq!(
        plan.filters,
        vec![Filter::Equals { column: Column::JobJobType, value: String::from("bundle") }]
    );
    assert_eq!(
        plan.order,
        vec![
            Order::FirstText { column: Column::JobEid, text: String::from("j-1") },
            Order::Descending { column: Column::JobId },
        ]
    );
}

#[test]
fn run_listing_with_all_arguments() {
    let ctx = AppContext::new("10.0.0.9");
    let plan = JobLogic::new(&ctx).query_run_list(
        s("bob"),
        s("10.0"),
        s("nightly"),
        s("timer"),
        s("default"),
        range("a", "b"),
        2,
        25,
    );
    assert_eq!(
        plan,
        QueryPlan {
            listing: Listing::RunStatus,
            filters: vec![
                Filter::Equals { column: Column::RunScheduleType, value: String::from("timer") },
                Filter::Equals { column: Column::RunJobType, value: String::from("default") },
                Filter::Equals { column: Column::RunUpdatedUser, value: String::from("bob") },
                Filter::Contains { column: Column::RunBindIp, value: String::from("10.0") },
                Filter::Contains { column: Column::ScheduleName, value: String::from("nightly") },
                Filter::Between {
                    after_column: Column::RunUpdatedTime,
                    after: String::from("a"),
                    before_column: Column::RunUpdatedTime,
                    before: String::from("b"),
                },
            ],
            order: vec![Order::Descending { column: Column::RunUpdatedTime }],
            page: 2,
            page_size: 25,
        }
    );
}

#[test]
fn run_listing_without_arguments() {
    let ctx = AppContext::new("10.0.0.9");
    let plan = JobLogic::new(&ctx).query_run_list(None, None, None, None, None, None, 0, 1);
    assert!(plan.filters.is_empty());
    assert_eq!(plan.order, vec![Order::Descending { column: Column::RunUpdatedTime }]);
    assert_eq!(plan.listing, Listing::RunStatus);
}

#[test]
fn plain_run_listing_does_not_filter_on_kinds() {
    let ctx = AppContext::new("10.0.0.9");
    let plan =
        JobLogic::new(&ctx).query_list(s("bob"), s("10.0"), s("nightly"), s("timer"), s("default"), 4, 5);
    assert_eq!(
        plan,
        QueryPlan {
            listing: Listing::RunStatus,
            filters: vec![
                Filter::Equals { column: Column::RunUpdatedUser, value: String::from("bob") },
                Filter::Contains { column: Column::RunBindIp, value: String::from("10.0") },
                Filter::Contains { column: Column::ScheduleName, value: String::from("nightly") },
            ],
            order: vec![Order::Descending { column: Column::RunUpdatedTime }],
            page: 4,
            page_size: 5,
        }
    );
}

#[test]
fn executed_job_is_not_deleted() {
    let ctx = AppContext::new("10.0.0.9");
    let logic = JobLogic::new(&ctx);
    assert_eq!(logic.delete_job(String::from("j-1"), true), Err(JobError::ForbiddenDelete));
    assert_eq!(logic.delete_job(String::from("j-1"), false), Ok(String::from("j-1")));
}

#[test]
fn missing_count_row_is_an_error() {
    let ctx = AppContext::new("10.0.0.9");
    let logic = JobLogic::new(&ctx);
    assert_eq!(logic.count_row(Some(17)), Ok(17));
    assert_eq!(logic.count_row(None), Err(JobError::CountFailed));
}

#[test]
fn error_messages() {
    assert_eq!(JobError::ForbiddenDelete.message(), "forbidden to delete the executed jobs");
    assert_eq!(JobError::CountFailed.message(), "failed to count row");
}

#[test]
fn run_listing_time_range_bounds_the_runs_update_time_on_both_sides() {
    let ctx = AppContext::new("10.0.0.9");
    let plan = JobLogic::new(&ctx).query_run_list(
        None,
        None,
        None,
        None,
        None,
        range("2024-01-01", "2024-02-01"),
        0,
        10,
    );
    assert_eq!(
        plan.filters,
        vec![Filter::Between {
            after_column: Column::RunUpdatedTime,
            after: String::from("2024-01-01"),
            before_column: Column::RunUpdatedTime,
            before: String::from("2024-02-01"),
        }]
    );
}

use rate_mirrors::config::{AppError, FetchCause};
use rate_mirrors::fetch::{Endpoint, FetchPlan, FetchStep, Request};

fn plan() -> FetchPlan {
    FetchPlan {
        primary_url: "https://primary.example/list".to_string(),
        fallback_url: "https://fallback.example/list".to_string(),
        timeout_ms: 2500,
        fallback_notice: "# falling back".to_string(),
    }
}

fn run(
    plan: &FetchPlan,
    primary: Result<String, FetchCause>,
    fallback: Result<String, FetchCause>,
) -> (Result<String, AppError>, Vec<Request>) {
    let mut asked = vec![plan.begin()];
    let mut step = plan.resume(Endpoint::Primary, primary);
    let mut fallback = Some(fallback);
    loop {
        match step {
            FetchStep::Done(result) => return (result, asked),
            FetchStep::Ask(request) => {
                let endpoint = request.endpoint;
                asked.push(request);
                step = plan.resume(endpoint, fallback.take().unwrap());
            }
        }
    }
}

#[test]
fn fetch_begins_with_the_primary_endpoint() {
    let request = plan().begin();
    assert_eq!(
        request,
        Request {
            endpoint: Endpoint::Primary,
            url: "https://primary.example/list".to_string(),
            timeout_ms: 2500,
            notice: None,
        }
    );
}

#[test]
fn primary_payload_ends_the_fetch() {
    let (result, asked) = run(&plan(), Ok("primary".to_string()), Ok("fallback".to_string()));
    assert_eq!(result, Ok("primary".to_string()));
    assert_eq!(asked.len(), 1);
}

#[test]
fn fallback_is_asked_once_after_the_notice_and_its_payload_is_used() {
    let (result, asked) = run(&plan(), Err(FetchCause::Network), Ok("fallback".to_string()));
    assert_eq!(result, Ok("fallback".to_string()));
    assert_eq!(asked.len(), 2);
    assert_eq!(
        asked[1],
        Request {
            endpoint: Endpoint::Fallback,
            url: "https://fallback.example/list".to_string(),
            timeout_ms: 2500,
            notice: Some("# falling back".to_string()),
        }
    );
}

#[test]
fn both_failing_gives_a_fetch_error_with_the_fallback_cause() {
    let (result, asked) = run(&plan(), Err(FetchCause::Timeout), Err(FetchCause::Parse));
    assert_eq!(result, Err(AppError::FetchError(FetchCause::Parse)));
    assert_eq!(asked.len(), 2);
}

#[test]
fn every_cause_of_a_primary_failure_leads_to_the_fallback() {
    for cause in [
        FetchCause::Network,
        FetchCause::Timeout,
        FetchCause::Status,
        FetchCause::Decode,
        FetchCause::Parse,
    ] {
        match plan().resume::<String>(Endpoint::Primary, Err(cause)) {
            FetchStep::Ask(request) => assert_eq!(request.endpoint, Endpoint::Fallback),
            FetchStep::Done(_) => panic!("the fallback endpoint was not asked"),
        }
        match plan().resume::<String>(Endpoint::Fallback, Err(cause)) {
            FetchStep::Done(result) => assert_eq!(result, Err(AppError::FetchError(cause))),
            FetchStep::Ask(_) => panic!("a third request was asked for"),
        }
    }
}

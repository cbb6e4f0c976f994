use teperunner_worker::worker::{
    build_response, exit_code, handle_event, BusEvent, Executor, Outcome, Step,
};

struct AlwaysSucceeds;

impl Executor for AlwaysSucceeds {
    fn execute(&mut self, _job_reference: &str) -> Outcome {
        Outcome::Success("done".to_string())
    }
}

struct AlwaysFails;

impl Executor for AlwaysFails {
    fn execute(&mut self, _job_reference: &str) -> Outcome {
        Outcome::Failure("jar crashed".to_string())
    }
}

struct RecordsJobs {
    jobs: Vec<String>,
}

impl Executor for RecordsJobs {
    fn execute(&mut self, job_reference: &str) -> Outcome {
        self.jobs.push(job_reference.to_string());
        Outcome::Success(format!("Executed command: {}", job_reference))
    }
}

#[test]
fn successful_command_yields_success_response() {
    let mut executor = AlwaysSucceeds;
    let event = BusEvent::Payload("{\"id\":\"abc\",\"jar_path\":\"/tmp/job.jar\"}".to_string());
    match handle_event(&mut executor, &event) {
        Step::Respond(resp) => {
            assert_eq!(resp.status, "success");
            assert!(!resp.is_error);
            assert!(resp.content.contains("done"));
            assert_ne!(resp.id, "abc");
            assert_eq!(resp.id.len(), 36);
        },
        _ => panic!("a decodable command must be answered"),
    }
}

#[test]
fn executor_receives_the_jar_path() {
    let mut executor = RecordsJobs { jobs: Vec::new() };
    let event = BusEvent::Payload("{\"id\":\"1\",\"jar_path\":\"/opt/work.jar\"}".to_string());
    match handle_event(&mut executor, &event) {
        Step::Respond(resp) => {
            assert!(resp.content.contains("/opt/work.jar"));
        },
        _ => panic!("a decodable command must be answered"),
    }
    assert_eq!(executor.jobs, vec!["/opt/work.jar".to_string()]);
}

#[test]
fn failing_executor_yields_failure_response_and_loop_continues() {
    let mut executor = AlwaysFails;
    let event = BusEvent::Payload("{\"id\":\"abc\",\"jar_path\":\"/tmp/job.jar\"}".to_string());
    match handle_event(&mut executor, &event) {
        Step::Respond(resp) => {
            assert_eq!(resp.status, "failure");
            assert!(resp.is_error);
            assert_eq!(resp.content, "jar crashed");
        },
        _ => panic!("an executor failure is still answered"),
    }
    // the next message is still processed: the failure did not stop the loop
    let next = BusEvent::Payload("{\"id\":\"d\",\"jar_path\":\"e\"}".to_string());
    match handle_event(&mut executor, &next) {
        Step::Respond(_) => {},
        _ => panic!("the loop must continue after an executor failure"),
    }
}

#[test]
fn n_commands_yield_n_responses_with_unique_ids() {
    let mut executor = AlwaysSucceeds;
    let mut ids: Vec<String> = Vec::new();
    for k in 0..5 {
        let payload = format!("{{\"id\":\"cmd-{}\",\"jar_path\":\"/tmp/{}.jar\"}}", k, k);
        match handle_event(&mut executor, &BusEvent::Payload(payload)) {
            Step::Respond(resp) => ids.push(resp.id),
            _ => panic!("every decodable command must be answered"),
        }
    }
    assert_eq!(ids.len(), 5);
    for i in 0..ids.len() {
        for j in 0..i {
            assert_ne!(ids[i], ids[j], "response ids must be unique");
        }
    }
}

#[test]
fn malformed_payload_is_skipped_without_response() {
    let mut executor = AlwaysSucceeds;
    let event = BusEvent::Payload("{\"id\":\"abc\"}".to_string());
    match handle_event(&mut executor, &event) {
        Step::Skip => {},
        _ => panic!("a malformed payload is dropped, not answered"),
    }
    // and the loop is still alive afterwards
    let next = BusEvent::Payload("{\"id\":\"a\",\"jar_path\":\"b\"}".to_string());
    match handle_event(&mut executor, &next) {
        Step::Respond(_) => {},
        _ => panic!("the loop must continue after a decode failure"),
    }
}

#[test]
fn connection_loss_stops_the_loop_with_nonzero_exit() {
    let mut executor = AlwaysSucceeds;
    match handle_event(&mut executor, &BusEvent::ConnectionLost) {
        Step::Stop => {},
        _ => panic!("a lost connection is fatal"),
    }
    assert_ne!(exit_code(false), 0);
    assert_eq!(exit_code(true), 0);
}

#[test]
fn build_response_keeps_status_and_flag_consistent() {
    let ok = build_response(Outcome::Success("fine".to_string()), "id-1".to_string());
    assert_eq!(ok.status, "success");
    assert!(!ok.is_error);
    assert_eq!(ok.content, "fine");
    assert_eq!(ok.id, "id-1");

    let bad = build_response(Outcome::Failure("broke".to_string()), "id-2".to_string());
    assert_eq!(bad.status, "failure");
    assert!(bad.is_error);
    assert_eq!(bad.content, "broke");
    assert_eq!(bad.id, "id-2");
}

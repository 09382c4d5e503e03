use http_client::handler::{Action, Event, Stage, NOT_FOUND_PAGE};
use http_client::routes::{App, ScannedFile, ScannedFolder};

fn table() -> App {
    App::new(&vec![ScannedFolder {
        name: "pages".to_string(),
        files: vec![ScannedFile {
            name: "index.html".to_string(),
            path: "pages/index.html".to_string(),
        }],
    }])
}

fn line(text: &str) -> Event {
    Event::Line(text.to_string())
}

fn contents(text: &str) -> Event {
    Event::Contents(text.to_string())
}

fn read_file(path: &str) -> Action {
    Action::ReadFile(path.to_string())
}

fn respond(text: &str) -> Action {
    Action::Respond(text.to_string())
}

#[test]
fn not_found_page_path() {
    assert_eq!(NOT_FOUND_PAGE, "./pages/404.html");
}

#[test]
fn serves_a_registered_file() {
    let app = table();
    let (stage, action) = app.handle_request(Stage::AwaitingLine, line("GET /index.html HTTP/1.1"));
    assert_eq!(stage, Stage::AwaitingResource);
    assert_eq!(action, read_file("pages/index.html"));
    let (stage, action) = app.handle_request(stage, contents("hi"));
    assert_eq!(stage, Stage::Finished);
    assert_eq!(action, respond("HTTP/1.1 200 OK\r\nContent-Length: 2\r\n\r\nhi"));
}

#[test]
fn serves_the_not_found_page_for_an_unregistered_path() {
    let app = table();
    let (stage, action) = app.handle_request(Stage::AwaitingLine, line("GET /nope HTTP/1.1"));
    assert_eq!(stage, Stage::AwaitingFallback);
    assert_eq!(action, read_file("./pages/404.html"));
    let (stage, action) = app.handle_request(stage, contents("missing"));
    assert_eq!(stage, Stage::Finished);
    assert_eq!(
        action,
        respond("HTTP/1.1 404 NOT FOUND\r\nContent-Length: 7\r\n\r\nmissing")
    );
}

#[test]
fn answers_a_malformed_line_with_400() {
    let app = table();
    for text in ["", "GET", "GET /index.html", "/index.html HTTP/1.1"] {
        let (stage, action) = app.handle_request(Stage::AwaitingLine, line(text));
        assert_eq!(stage, Stage::Finished);
        assert_eq!(
            action,
            respond("HTTP/1.1 400 BAD REQUEST\r\nContent-Length: 0\r\n\r\n")
        );
    }
}

#[test]
fn closes_when_no_line_arrives() {
    let app = table();
    let (stage, action) = app.handle_request(Stage::AwaitingLine, Event::NoLine);
    assert_eq!(stage, Stage::Finished);
    assert_eq!(action, Action::Close);
}

#[test]
fn falls_back_when_the_registered_file_cannot_be_read() {
    let app = table();
    let (stage, _) = app.handle_request(Stage::AwaitingLine, line("GET /index.html HTTP/1.1"));
    let (stage, action) = app.handle_request(stage, Event::ReadFailed);
    assert_eq!(stage, Stage::AwaitingFallback);
    assert_eq!(action, read_file("./pages/404.html"));
    let (stage, action) = app.handle_request(stage, contents("missing"));
    assert_eq!(stage, Stage::Finished);
    assert_eq!(
        action,
        respond("HTTP/1.1 404 NOT FOUND\r\nContent-Length: 7\r\n\r\nmissing")
    );
}

#[test]
fn answers_500_when_the_not_found_page_cannot_be_read() {
    let app = table();
    let (stage, _) = app.handle_request(Stage::AwaitingLine, line("GET /nope HTTP/1.1"));
    let (stage, action) = app.handle_request(stage, Event::ReadFailed);
    assert_eq!(stage, Stage::Finished);
    assert_eq!(
        action,
        respond("HTTP/1.1 500 INTERNAL SERVER ERROR\r\nContent-Length: 0\r\n\r\n")
    );
}

#[test]
fn answers_500_when_neither_file_can_be_read() {
    let app = table();
    let (stage, _) = app.handle_request(Stage::AwaitingLine, line("GET /index.html HTTP/1.1"));
    let (stage, _) = app.handle_request(stage, Event::ReadFailed);
    let (stage, action) = app.handle_request(stage, Event::ReadFailed);
    assert_eq!(stage, Stage::Finished);
    assert_eq!(
        action,
        respond("HTTP/1.1 500 INTERNAL SERVER ERROR\r\nContent-Length: 0\r\n\r\n")
    );
}

#[test]
fn method_and_version_do_not_matter() {
    let app = table();
    for text in ["POST /index.html HTTP/1.0", " /index.html ", "a b /index.html c"] {
        let (stage, action) = app.handle_request(Stage::AwaitingLine, line(text));
        assert_eq!(stage, Stage::AwaitingResource);
        assert_eq!(action, read_file("pages/index.html"));
    }
}

#[test]
fn path_must_match_exactly() {
    let app = table();
    for text in [
        "GET index.html HTTP/1.1",
        "GET /index.html?x=1 HTTP/1.1",
        "GET /INDEX.HTML HTTP/1.1",
        "GET /pages/index.html HTTP/1.1",
        "GET /index.html/ HTTP/1.1",
    ] {
        let (stage, action) = app.handle_request(Stage::AwaitingLine, line(text));
        assert_eq!(stage, Stage::AwaitingFallback);
        assert_eq!(action, read_file("./pages/404.html"));
    }
}

#[test]
fn closes_on_an_event_that_the_stage_does_not_wait_for() {
    let app = table();
    let cases = vec![
        (Stage::AwaitingLine, contents("hi")),
        (Stage::AwaitingLine, Event::ReadFailed),
        (Stage::AwaitingResource, line("GET /index.html HTTP/1.1")),
        (Stage::AwaitingResource, Event::NoLine),
        (Stage::AwaitingFallback, line("GET /index.html HTTP/1.1")),
        (Stage::AwaitingFallback, Event::NoLine),
    ];
    for (stage, event) in cases {
        let (next, action) = app.handle_request(stage, event);
        assert_eq!(next, Stage::Finished);
        assert_eq!(action, Action::Close);
    }
}

#[test]
fn a_finished_exchange_stays_finished() {
    let app = table();
    let events = vec![
        line("GET /index.html HTTP/1.1"),
        Event::NoLine,
        contents("hi"),
        Event::ReadFailed,
    ];
    for event in events {
        let (next, action) = app.handle_request(Stage::Finished, event);
        assert_eq!(next, Stage::Finished);
        assert_eq!(action, Action::Close);
    }
}

#[test]
fn every_exchange_ends_within_three_events() {
    let app = table();
    let lines = ["GET /index.html HTTP/1.1", "GET /nope HTTP/1.1", "bad"];
    let reads = [Some("body"), None];
    for text in lines {
        for first in reads {
            for second in reads {
                let mut outcomes = vec![first, second].into_iter();
                let (mut stage, mut action) = app.handle_request(Stage::AwaitingLine, line(text));
                let mut events = 1;
                while let Action::ReadFile(_) = action {
                    assert_ne!(stage, Stage::Finished);
                    let event = match outcomes.next().expect("at most two reads") {
                        Some(body) => contents(body),
                        None => Event::ReadFailed,
                    };
                    let next = app.handle_request(stage, event);
                    stage = next.0;
                    action = next.1;
                    events += 1;
                }
                assert_eq!(stage, Stage::Finished);
                assert!(events <= 3);
                assert!(matches!(action, Action::Respond(_)));
            }
        }
    }
}

#[test]
fn empty_file_is_served_with_length_zero() {
    let app = table();
    let (stage, _) = app.handle_request(Stage::AwaitingLine, line("GET /index.html HTTP/1.1"));
    let (_, action) = app.handle_request(stage, contents(""));
    assert_eq!(action, respond("HTTP/1.1 200 OK\r\nContent-Length: 0\r\n\r\n"));
}

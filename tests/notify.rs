use thumbnailer::notify::{react, ready_paths, Reaction, Signal};

fn uris() -> Vec<String> {
    vec![
        "file:///home/user/a%20b.png".to_string(),
        "http://example.org/c.png".to_string(),
        "file:///d.jpg".to_string(),
    ]
}

#[test]
fn ready_paths_keeps_file_uris() {
    assert_eq!(vec!["/home/user/a%20b.png".to_string(), "/d.jpg".to_string()], ready_paths(&uris()));
    assert!(ready_paths(&Vec::new()).is_empty());
}

#[test]
fn react_reports_watched_request() {
    match react(7, Signal::Ready { handle: 7, uris: uris() }) {
        Reaction::Report(paths) => assert_eq!(vec!["/home/user/a%20b.png".to_string(), "/d.jpg".to_string()], paths),
        _ => panic!("expected a report"),
    }
}

#[test]
fn react_ignores_other_requests() {
    assert!(matches!(react(7, Signal::Ready { handle: 8, uris: uris() }), Reaction::Wait));
    assert!(matches!(react(7, Signal::Finished { handle: 8 }), Reaction::Wait));
    assert!(matches!(react(7, Signal::Other), Reaction::Wait));
}

#[test]
fn react_stops_when_finished() {
    assert!(matches!(react(7, Signal::Finished { handle: 7 }), Reaction::Stop));
}

use updown::Env;

fn full_text() -> String {
    [
        "DATABASE_URL=db.sqlite3",
        "HOST=127.0.0.1:9001",
        "ORIGIN=http://localhost:9001",
        "WS_HOST=ws://localhost:9001/ws",
        "SESSION_KEY=0123456789abcdef0123456789abcdef0123456789abcdef0123456789abcdef",
    ]
    .join("\n")
}

#[test]
fn parses_a_complete_file() {
    let env = Env::parse(&full_text()).unwrap();
    assert_eq!(env.database_url, "db.sqlite3");
    assert_eq!(env.host, "127.0.0.1:9001");
    assert_eq!(env.origin, "http://localhost:9001");
    assert_eq!(env.ws_host, "ws://localhost:9001/ws");
    assert_eq!(
        env.session_key,
        "0123456789abcdef0123456789abcdef0123456789abcdef0123456789abcdef"
    );
}

#[test]
fn trailing_newline_changes_nothing() {
    let mut text = full_text();
    text.push('\n');
    let env = Env::parse(&text).unwrap();
    assert_eq!(env.database_url, "db.sqlite3");
    assert_eq!(env.session_key.len(), 64);
}

#[test]
fn carriage_returns_are_stripped() {
    let text = full_text().replace('\n', "\r\n");
    let env = Env::parse(&text).unwrap();
    assert_eq!(env.host, "127.0.0.1:9001");
    assert_eq!(env.ws_host, "ws://localhost:9001/ws");
}

#[test]
fn a_missing_key_fails() {
    assert!(Env::parse("").is_none());
    let text = [
        "DATABASE_URL=db.sqlite3",
        "HOST=127.0.0.1:9001",
        "ORIGIN=http://localhost:9001",
        "WS_HOST=ws://localhost:9001/ws",
    ]
    .join("\n");
    assert!(Env::parse(&text).is_none());
}

#[test]
fn a_later_pair_overrides_an_earlier_one() {
    let mut text = full_text();
    text.push_str("\nHOST=0.0.0.0:80");
    let env = Env::parse(&text).unwrap();
    assert_eq!(env.host, "0.0.0.0:80");
    assert_eq!(env.database_url, "db.sqlite3");
}

#[test]
fn tokens_pair_up_across_lines() {
    // a line with two separators leaves a dangling token, which pairs
    // with the first token of the next line
    let text = "A=1=B\n2=C=3";
    assert!(Env::parse(text).is_none());
    let text2 = ["DATABASE_URL=a=HOST", "b=ORIGIN=c", "WS_HOST=d=SESSION_KEY", "e=X=y"].join("\n");
    let env = Env::parse(&text2).unwrap();
    assert_eq!(env.database_url, "a");
    assert_eq!(env.host, "b");
    assert_eq!(env.origin, "c");
    assert_eq!(env.ws_host, "d");
    assert_eq!(env.session_key, "e");
}

#[test]
fn empty_values_are_kept() {
    let mut text = full_text();
    text.push_str("\nORIGIN=");
    let env = Env::parse(&text).unwrap();
    assert_eq!(env.origin, "");
}

use vial::session::Session;
use vial::Error;

#[test]
fn session_encode() {
    let session = Session::new("secret-key");
    let encoded = session.encode("hello");
    assert_eq!(encoded, "mYcOuCZs");
}

#[test]
fn session_decode() {
    let session = Session::new("secret-key");
    let decoded = session.decode("mYcOuCZs");
    assert_eq!(decoded, Ok("hello".to_string()));
}

#[test]
fn session_decode_fails_on_garbage() {
    let session = Session::new("secret-key");
    assert_eq!(session.decode(""), Err(Error::SessionDecode));
    assert_eq!(session.decode("!!!!"), Err(Error::SessionDecode));
    assert_eq!(Session::read_plain(None), Err(Error::SessionDecode));
    assert_eq!(Session::read_plain(Some(b"abc".to_vec())), Ok("abc".to_string()));
    assert_eq!(Session::read_plain(Some(vec![0x61, 0xff])), Ok("a\u{fffd}".to_string()));
}

#[test]
fn session_round_trip() {
    let session = Session::new("another secret");
    for text in ["", "a", "hello world", "naïve ✓"] {
        let encoded = session.encode(text);
        assert_ne!(encoded, text);
        assert_eq!(session.decode(&encoded), Ok(text.to_string()));
    }
}

#[test]
fn session_store() {
    let mut session = Session::new("s");
    assert_eq!(session.get("Name"), None);
    session.set("Name", "Roger");
    session.set("count", "100");
    assert_eq!(session.get("NAME"), Some("Roger"));
    assert_eq!(session.get("Count"), Some("100"));
    session.set("COUNT", "101");
    assert_eq!(session.get("count"), Some("101"));
    session.remove("name");
    assert_eq!(session.get("Name"), Some(""));
}

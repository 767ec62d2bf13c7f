use umbral::firebase::{
    credentials_from, database_outcome, database_write, sign_up_outcome, sign_up_request, Credentials,
    Registration, RegistrationAction, RegistrationError, RegistrationEvent,
};

#[test]
fn sign_up_needs_api_key() {
    assert!(matches!(sign_up_request("aabb", ""), Err(RegistrationError::MissingApiKey)));
}

#[test]
fn sign_up_request_for_camera() {
    let q = sign_up_request("aabbccddeeff", "KEY").ok().unwrap();
    assert_eq!(q.url, "https://identitytoolkit.googleapis.com/v1/accounts:signUp?key=KEY");
    assert_eq!(q.email, "camera_aabbccddeeff@umbral.unesum.edu");
    assert_eq!(q.password, "Umbral.aabbccddeeff#");
}

#[test]
fn sign_up_success_gives_credentials() {
    let body = br#"{"localId":"u1","idToken":"t1","kind":"x"}"#;
    let c = sign_up_outcome(true, body, "").ok().unwrap();
    assert_eq!(c.uid, "u1");
    assert_eq!(c.id_token, "t1");
}

#[test]
fn sign_up_success_without_token() {
    let r = sign_up_outcome(true, br#"{"localId":"u1"}"#, "");
    assert!(matches!(r, Err(RegistrationError::MissingCredentials)));
    let r = sign_up_outcome(true, br#"{"localId":"","idToken":"t"}"#, "");
    assert!(matches!(r, Err(RegistrationError::MissingCredentials)));
}

#[test]
fn sign_up_success_with_unreadable_body() {
    let r = sign_up_outcome(true, b"<html>", "<html>");
    assert!(matches!(r, Err(RegistrationError::UnreadableAuthResponse)));
}

#[test]
fn sign_up_refused_for_existing_camera() {
    let text = r#"{"error":{"code":400,"message":"EMAIL_EXISTS"}}"#;
    let r = sign_up_outcome(false, text.as_bytes(), text);
    assert!(matches!(r, Err(RegistrationError::AlreadyRegistered)));
}

#[test]
fn sign_up_refused_otherwise() {
    let r = sign_up_outcome(false, b"INVALID_API_KEY", "INVALID_API_KEY");
    assert!(matches!(r, Err(RegistrationError::AuthRejected(ref t)) if t == "INVALID_API_KEY"));
}

#[test]
fn credentials_need_both_members() {
    assert!(credentials_from(Some("u".to_string()), Some("t".to_string())).is_ok());
    assert!(matches!(credentials_from(None, Some("t".to_string())), Err(RegistrationError::MissingCredentials)));
    assert!(matches!(credentials_from(Some("u".to_string()), None), Err(RegistrationError::MissingCredentials)));
}

#[test]
fn database_write_for_camera() {
    let c = Credentials { uid: "u1".to_string(), id_token: "t1".to_string() };
    let w = database_write(&c, "Aula 3");
    assert_eq!(w.url, "https://myapplication-65c31ca7-default-rtdb.firebaseio.com/cameras/u1.json?auth=t1");
    assert_eq!(w.name, "Aula 3");
}

#[test]
fn database_answer() {
    assert_eq!(database_outcome(true, "u1".to_string(), "").ok(), Some("u1".to_string()));
    let r = database_outcome(false, "u1".to_string(), "Permission denied");
    assert!(matches!(r, Err(RegistrationError::DatabaseRejected(ref t)) if t == "Permission denied"));
}

#[test]
fn registration_without_api_key_sends_nothing() {
    let (state, action) = Registration::start("aabb", "Aula 1", "");
    assert!(matches!(state, Registration::Finished));
    assert!(matches!(action, RegistrationAction::Finish(Err(RegistrationError::MissingApiKey))));
}

#[test]
fn registration_runs_sign_up_then_write() {
    let (state, action) = Registration::start("aabbccddeeff", "Aula 1", "KEY");
    match action {
        RegistrationAction::SendSignUp(q) => {
            assert_eq!(q.url, "https://identitytoolkit.googleapis.com/v1/accounts:signUp?key=KEY");
            assert_eq!(q.email, "camera_aabbccddeeff@umbral.unesum.edu");
        }
        _ => panic!("the sign-up request comes first"),
    }
    let body = br#"{"localId":"u1","idToken":"t1"}"#.to_vec();
    let (state, action) = state.step(RegistrationEvent::SignUpAnswered {
        success: true,
        body,
        body_text: String::new(),
    });
    match action {
        RegistrationAction::SendWrite(w) => {
            assert_eq!(
                w.url,
                "https://myapplication-65c31ca7-default-rtdb.firebaseio.com/cameras/u1.json?auth=t1"
            );
            assert_eq!(w.name, "Aula 1");
        }
        _ => panic!("the database write comes second"),
    }
    let (state, action) = state.step(RegistrationEvent::WriteAnswered {
        success: true,
        body_text: String::new(),
    });
    assert!(matches!(state, Registration::Finished));
    match action {
        RegistrationAction::Finish(Ok(uid)) => assert_eq!(uid, "u1"),
        _ => panic!("the registration succeeds"),
    }
    let (state, action) = state.step(RegistrationEvent::WriteFailed("late".to_string()));
    assert!(matches!(state, Registration::Finished));
    assert!(matches!(action, RegistrationAction::Ignore));
}

#[test]
fn registration_stops_when_already_registered() {
    let (state, _) = Registration::start("aabb", "Aula 1", "KEY");
    let text = r#"{"error":{"message":"EMAIL_EXISTS"}}"#;
    let (state, action) = state.step(RegistrationEvent::SignUpAnswered {
        success: false,
        body: text.as_bytes().to_vec(),
        body_text: text.to_string(),
    });
    assert!(matches!(state, Registration::Finished));
    assert!(matches!(action, RegistrationAction::Finish(Err(RegistrationError::AlreadyRegistered))));
}

#[test]
fn registration_reports_connection_errors() {
    let (state, _) = Registration::start("aabb", "Aula 1", "KEY");
    let (_, action) = state.step(RegistrationEvent::SignUpFailed("timeout".to_string()));
    match action {
        RegistrationAction::Finish(Err(RegistrationError::AuthConnection(m))) => assert_eq!(m, "timeout"),
        _ => panic!("a connection error"),
    }
    let state = Registration::AwaitingWrite { uid: "u1".to_string() };
    let (_, action) = state.step(RegistrationEvent::WriteFailed("refused".to_string()));
    match action {
        RegistrationAction::Finish(Err(RegistrationError::DatabaseConnection(m))) => assert_eq!(m, "refused"),
        _ => panic!("a connection error"),
    }
}

#[test]
fn registration_reports_rejected_write() {
    let state = Registration::AwaitingWrite { uid: "u1".to_string() };
    let (state, action) = state.step(RegistrationEvent::WriteAnswered {
        success: false,
        body_text: "Permission denied".to_string(),
    });
    assert!(matches!(state, Registration::Finished));
    match action {
        RegistrationAction::Finish(Err(RegistrationError::DatabaseRejected(t))) => {
            assert_eq!(t, "Permission denied")
        }
        _ => panic!("the write is rejected"),
    }
}

#[test]
fn registration_ignores_an_unawaited_answer() {
    let (state, _) = Registration::start("aabb", "Aula 1", "KEY");
    let (state, action) = state.step(RegistrationEvent::WriteAnswered {
        success: true,
        body_text: String::new(),
    });
    assert!(matches!(action, RegistrationAction::Ignore));
    match state {
        Registration::AwaitingSignUp { classroom_name } => assert_eq!(classroom_name, "Aula 1"),
        _ => panic!("still waiting for the sign-up"),
    }
}

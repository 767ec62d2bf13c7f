//! Registering a classroom's camera with Firebase: the camera signs up as a
//! user named after its MAC address, then writes the classroom's name under
//! its user id. The requests are sent by the caller; these functions decide
//! what to send and what each answer means.
use vstd::prelude::*;
use crate::json::{is_json, json_string_member, string_member};
use crate::text::{contains, contains_text, opt_text, owned, text_or_empty};

verus! {

/// Why registering a camera failed.
#[derive(Debug)]
pub enum RegistrationError {
    /// No Firebase API key is set in the settings.
    MissingApiKey,
    /// The sign-up request could not be sent or answered; the transport's message.
    AuthConnection(String),
    /// The sign-up answer was a success but its body is not JSON.
    UnreadableAuthResponse,
    /// The camera's user already exists.
    AlreadyRegistered,
    /// The sign-up was refused; the answer's body.
    AuthRejected(String),
    /// The sign-up answer lacks the user id or the token.
    MissingCredentials,
    /// The database write could not be sent or answered; the transport's message.
    DatabaseConnection(String),
    /// The database refused the write; the answer's body.
    DatabaseRejected(String),
}

/// The sign-up request for a camera.
pub struct SignUpRequest {
    /// Where the request goes, with the API key.
    pub url: String,
    /// The camera's user name.
    pub email: String,
    /// The camera's password.
    pub password: String,
}

/// The identity that a successful sign-up gives.
pub struct Credentials {
    /// The camera's user id.
    pub uid: String,
    /// The token that authorizes the database write.
    pub id_token: String,
}

/// The database write that records a classroom's name for a camera.
pub struct DatabaseWrite {
    /// Where the name is written, with the token.
    pub url: String,
    /// The classroom's name.
    pub name: String,
}

/// The sign-up address, before the API key.
pub open spec fn sign_up_url(api_key: Seq<char>) -> Seq<char> {
    "https://identitytoolkit.googleapis.com/v1/accounts:signUp?key="@ + api_key
}

/// The user name of the camera with MAC `mac`.
pub open spec fn camera_email(mac: Seq<char>) -> Seq<char> {
    "camera_"@ + mac + "@umbral.unesum.edu"@
}

/// The password of the camera with MAC `mac`.
pub open spec fn camera_password(mac: Seq<char>) -> Seq<char> {
    "Umbral."@ + mac + "#"@
}

/// Where the classroom's name of the camera `uid` is written.
pub open spec fn camera_record_url(uid: Seq<char>, id_token: Seq<char>) -> Seq<char> {
    "https://myapplication-65c31ca7-default-rtdb.firebaseio.com/cameras/"@ + uid + ".json?auth="@
        + id_token
}

/// The sign-up request for the camera with MAC `mac`. Refused, before any
/// request is sent, when no API key is set.
pub fn sign_up_request(mac: &str, api_key: &str) -> (r: Result<SignUpRequest, RegistrationError>)
    ensures
        r is Err <==> api_key@.len() == 0,
        r matches Err(e) ==> e == RegistrationError::MissingApiKey,
        r matches Ok(q) ==> q.url@ == sign_up_url(api_key@) && q.email@ == camera_email(mac@)
            && q.password@ == camera_password(mac@),
{
    if api_key.is_empty() {
        return Err(RegistrationError::MissingApiKey);
    }
    let url = "https://identitytoolkit.googleapis.com/v1/accounts:signUp?key=".to_owned().concat(
        api_key,
    );
    let email = "camera_".to_owned().concat(mac).concat("@umbral.unesum.edu");
    let password = "Umbral.".to_owned().concat(mac).concat("#");
    Ok(SignUpRequest { url, email, password })
}

/// The credentials read from a successful sign-up's `localId` and `idToken`
/// members (a missing one reads as empty). Refused when either is empty.
pub fn credentials_from(local_id: Option<String>, id_token: Option<String>) -> (r: Result<
    Credentials,
    RegistrationError,
>)
    ensures
        r is Err <==> (text_or_empty(opt_text(local_id)).len() == 0 || text_or_empty(
            opt_text(id_token),
        ).len() == 0),
        r matches Err(e) ==> e == RegistrationError::MissingCredentials,
        r matches Ok(c) ==> c.uid@ == text_or_empty(opt_text(local_id)) && c.id_token@
            == text_or_empty(opt_text(id_token)),
{
    let uid = match local_id {
        Some(s) => s,
        None => String::new(),
    };
    let token = match id_token {
        Some(s) => s,
        None => String::new(),
    };
    if uid.as_str().is_empty() || token.as_str().is_empty() {
        Err(RegistrationError::MissingCredentials)
    } else {
        Ok(Credentials { uid, id_token: token })
    }
}

/// The credentials that a sign-up answer gives, as (user id, token): its
/// `localId` and `idToken` members when the answer is a success with a JSON
/// body in which both are non-empty strings; else none.
pub open spec fn signed_up(success: bool, body: Seq<u8>) -> Option<(Seq<char>, Seq<char>)> {
    let uid = text_or_empty(json_string_member(body, "localId"@));
    let token = text_or_empty(json_string_member(body, "idToken"@));
    if success && is_json(body) && uid.len() > 0 && token.len() > 0 {
        Some((uid, token))
    } else {
        None
    }
}

/// The error that a sign-up answer which gives no credentials is taken for.
pub open spec fn sign_up_error(success: bool, body: Seq<u8>, body_text: Seq<char>, e: RegistrationError) -> bool {
    if success {
        if !is_json(body) {
            e is UnreadableAuthResponse
        } else {
            e is MissingCredentials
        }
    } else if contains_text(body_text, "EMAIL_EXISTS"@) {
        e is AlreadyRegistered
    } else {
        e matches RegistrationError::AuthRejected(t) && t@ == body_text
    }
}

/// What a sign-up answer means. On success, the credentials in the JSON
/// `body`; else "already registered" when the answer's text says
/// `EMAIL_EXISTS`, or the refusal with that text.
pub fn sign_up_outcome(success: bool, body: &[u8], body_text: &str) -> (r: Result<
    Credentials,
    RegistrationError,
>)
    ensures
        match signed_up(success, body@) {
            Some((uid, token)) => r matches Ok(c) && c.uid@ == uid && c.id_token@ == token,
            None => r matches Err(e) && sign_up_error(success, body@, body_text@, e),
        },
{
    if success {
        let local_id = match string_member(body, "localId") {
            Some(m) => m,
            None => return Err(RegistrationError::UnreadableAuthResponse),
        };
        // The body was read as JSON above, so this read gives a value too.
        let id_token = string_member(body, "idToken").unwrap();
        credentials_from(local_id, id_token)
    } else if contains(body_text, "EMAIL_EXISTS") {
        Err(RegistrationError::AlreadyRegistered)
    } else {
        Err(RegistrationError::AuthRejected(owned(body_text)))
    }
}

/// The database write recording `classroom_name` for the signed-up camera.
pub fn database_write(credentials: &Credentials, classroom_name: &str) -> (r: DatabaseWrite)
    ensures
        r.url@ == camera_record_url(credentials.uid@, credentials.id_token@),
        r.name@ == classroom_name@,
{
    let url = "https://myapplication-65c31ca7-default-rtdb.firebaseio.com/cameras/".to_owned().concat(
        credentials.uid.as_str(),
    ).concat(".json?auth=").concat(credentials.id_token.as_str());
    DatabaseWrite { url, name: owned(classroom_name) }
}

/// What the database write's answer means: on success the registration is
/// done and gives the camera's user id, else the refusal with the answer's text.
pub fn database_outcome(success: bool, uid: String, body_text: &str) -> (r: Result<
    String,
    RegistrationError,
>)
    ensures
        success ==> (r matches Ok(u) && u == uid),
        !success ==> (r matches Err(e) && (e matches RegistrationError::DatabaseRejected(t) && t@
            == body_text@)),
{
    if success {
        Ok(uid)
    } else {
        Err(RegistrationError::DatabaseRejected(owned(body_text)))
    }
}

/// Where a camera's registration stands.
pub enum Registration {
    /// The sign-up request was sent; the classroom's name waits for the write.
    AwaitingSignUp { classroom_name: String },
    /// The database write was sent for the camera's user id.
    AwaitingWrite { uid: String },
    /// The registration is over; its result was handed out.
    Finished,
}

/// What happened to the request that was sent last.
pub enum RegistrationEvent {
    /// The sign-up request could not be sent or answered; the transport's message.
    SignUpFailed(String),
    /// The sign-up answer: whether its status is a success, its body and the body as text.
    SignUpAnswered { success: bool, body: Vec<u8>, body_text: String },
    /// The database write could not be sent or answered; the transport's message.
    WriteFailed(String),
    /// The database answer: whether its status is a success, and its body as text.
    WriteAnswered { success: bool, body_text: String },
}

/// What the caller does next.
pub enum RegistrationAction {
    /// Send the sign-up request.
    SendSignUp(SignUpRequest),
    /// Send the database write.
    SendWrite(DatabaseWrite),
    /// Report the registration's result: the camera's user id, or why it failed.
    Finish(Result<String, RegistrationError>),
    /// Nothing: the event does not answer the request that is awaited.
    Ignore,
}

/// Whether an action sends a request.
pub open spec fn is_request(a: RegistrationAction) -> bool {
    a is SendSignUp || a is SendWrite
}

/// The error that an action reports, if it reports one.
pub open spec fn reported_error(a: RegistrationAction) -> Option<RegistrationError> {
    match a {
        RegistrationAction::Finish(Err(e)) => Some(e),
        _ => None,
    }
}

/// How a registration starts: refused at once when no API key is set, else
/// by the sign-up request.
pub open spec fn is_start(
    mac: Seq<char>,
    classroom_name: Seq<char>,
    api_key: Seq<char>,
    s: Registration,
    a: RegistrationAction,
) -> bool {
    if api_key.len() == 0 {
        s is Finished && reported_error(a) == Some(RegistrationError::MissingApiKey)
    } else {
        &&& (s matches Registration::AwaitingSignUp { classroom_name: n } && n@ == classroom_name)
        &&& (a matches RegistrationAction::SendSignUp(q) && q.url@ == sign_up_url(api_key)
            && q.email@ == camera_email(mac) && q.password@ == camera_password(mac))
    }
}

/// One step of a registration: from `s`, on the event `e`, to `next` with the action `a`.
pub open spec fn is_step(
    s: Registration,
    e: RegistrationEvent,
    next: Registration,
    a: RegistrationAction,
) -> bool {
    match s {
        Registration::AwaitingSignUp { classroom_name } => match e {
            RegistrationEvent::SignUpFailed(m) => next is Finished && reported_error(a) == Some(
                RegistrationError::AuthConnection(m),
            ),
            RegistrationEvent::SignUpAnswered { success, body, body_text } => match signed_up(success, body@) {
                Some((uid, token)) => {
                    &&& (next matches Registration::AwaitingWrite { uid: u } && u@ == uid)
                    &&& (a matches RegistrationAction::SendWrite(w) && w.url@ == camera_record_url(uid, token)
                        && w.name@ == classroom_name@)
                },
                None => next is Finished && (reported_error(a) matches Some(err) && sign_up_error(
                    success,
                    body@,
                    body_text@,
                    err,
                )),
            },
            _ => next == s && a is Ignore,
        },
        Registration::AwaitingWrite { uid } => match e {
            RegistrationEvent::WriteFailed(m) => next is Finished && reported_error(a) == Some(
                RegistrationError::DatabaseConnection(m),
            ),
            RegistrationEvent::WriteAnswered { success, body_text } => next is Finished && if success {
                a == RegistrationAction::Finish(Ok(uid))
            } else {
                reported_error(a) matches Some(err) && (err matches RegistrationError::DatabaseRejected(t)
                    && t@ == body_text@)
            },
            _ => next == s && a is Ignore,
        },
        Registration::Finished => next is Finished && a is Ignore,
    }
}

impl Registration {
    /// Starts registering the camera with MAC `mac` for the classroom
    /// `classroom_name`: the first action is the sign-up request, or the
    /// failure when no API key is set.
    pub fn start(mac: &str, classroom_name: &str, api_key: &str) -> (r: (Registration, RegistrationAction))
        ensures
            is_start(mac@, classroom_name@, api_key@, r.0, r.1),
    {
        match sign_up_request(mac, api_key) {
            Ok(q) => (
                Registration::AwaitingSignUp { classroom_name: owned(classroom_name) },
                RegistrationAction::SendSignUp(q),
            ),
            Err(e) => (Registration::Finished, RegistrationAction::Finish(Err(e))),
        }
    }

    /// Takes in what happened to the awaited request, and says what to do next.
    pub fn step(self, event: RegistrationEvent) -> (r: (Registration, RegistrationAction))
        ensures
            is_step(self, event, r.0, r.1),
    {
        match self {
            Registration::AwaitingSignUp { classroom_name } => match event {
                RegistrationEvent::SignUpFailed(m) => (
                    Registration::Finished,
                    RegistrationAction::Finish(Err(RegistrationError::AuthConnection(m))),
                ),
                RegistrationEvent::SignUpAnswered { success, body, body_text } => {
                    match sign_up_outcome(success, body.as_slice(), body_text.as_str()) {
                        Ok(c) => {
                            let w = database_write(&c, classroom_name.as_str());
                            (Registration::AwaitingWrite { uid: c.uid }, RegistrationAction::SendWrite(w))
                        },
                        Err(err) => (Registration::Finished, RegistrationAction::Finish(Err(err))),
                    }
                },
                _ => (Registration::AwaitingSignUp { classroom_name }, RegistrationAction::Ignore),
            },
            Registration::AwaitingWrite { uid } => match event {
                RegistrationEvent::WriteFailed(m) => (
                    Registration::Finished,
                    RegistrationAction::Finish(Err(RegistrationError::DatabaseConnection(m))),
                ),
                RegistrationEvent::WriteAnswered { success, body_text } => (
                    Registration::Finished,
                    RegistrationAction::Finish(database_outcome(success, uid, body_text.as_str())),
                ),
                _ => (Registration::AwaitingWrite { uid }, RegistrationAction::Ignore),
            },
            Registration::Finished => (Registration::Finished, RegistrationAction::Ignore),
        }
    }
}

/// How many requests the actions send.
pub open spec fn request_count(actions: Seq<RegistrationAction>) -> nat
    decreases actions.len(),
{
    if actions.len() == 0 {
        0
    } else {
        request_count(actions.drop_last()) + if is_request(actions.last()) {
            1nat
        } else {
            0nat
        }
    }
}

/// The credentials that an event gives: those of a sign-up answer that gives them.
pub open spec fn event_credentials(e: RegistrationEvent) -> Option<(Seq<char>, Seq<char>)> {
    match e {
        RegistrationEvent::SignUpAnswered { success, body, .. } => signed_up(success, body@),
        _ => None,
    }
}

/// Whether the event is a success answer of the database.
pub open spec fn write_confirmed(e: RegistrationEvent) -> bool {
    match e {
        RegistrationEvent::WriteAnswered { success, .. } => success,
        _ => false,
    }
}

/// A whole registration: `states[0]` and `actions[0]` come from
/// `Registration::start`, and each `events[i]` takes `states[i]` to
/// `states[i + 1]` with the action `actions[i + 1]`.
pub open spec fn is_run(
    mac: Seq<char>,
    classroom_name: Seq<char>,
    api_key: Seq<char>,
    states: Seq<Registration>,
    events: Seq<RegistrationEvent>,
    actions: Seq<RegistrationAction>,
) -> bool {
    &&& states.len() == events.len() + 1
    &&& actions.len() == states.len()
    &&& is_start(mac, classroom_name, api_key, states[0], actions[0])
    &&& forall|i: int|
        0 <= i < events.len() ==> #[trigger] is_step(states[i], events[i], states[i + 1], actions[i + 1])
}

/// The requests that a state may still send.
pub open spec fn requests_left(s: Registration) -> nat {
    match s {
        Registration::AwaitingSignUp { .. } => 1,
        _ => 0,
    }
}

proof fn lemma_run_prefix(
    mac: Seq<char>,
    classroom_name: Seq<char>,
    api_key: Seq<char>,
    states: Seq<Registration>,
    events: Seq<RegistrationEvent>,
    actions: Seq<RegistrationAction>,
    k: int,
)
    requires
        is_run(mac, classroom_name, api_key, states, events, actions),
        0 <= k < states.len(),
    ensures
        request_count(actions.take(k + 1)) + requests_left(states[k]) <= 2,
        states[k] matches Registration::AwaitingSignUp { classroom_name: n } ==> n@ == classroom_name,
        states[k] matches Registration::AwaitingWrite { uid } ==> exists|j: int|
            0 < j <= k && #[trigger] actions[j] is SendWrite && (event_credentials(events[j - 1]) matches Some(
                c,
            ) && c.0 == uid@),
    decreases k,
{
    if k == 0 {
        assert(actions.take(1).drop_last() =~= Seq::<RegistrationAction>::empty());
        assert(request_count(Seq::<RegistrationAction>::empty()) == 0);
        assert(actions.take(1).last() == actions[0]);
    } else {
        lemma_run_prefix(mac, classroom_name, api_key, states, events, actions, k - 1);
        let p = k - 1;
        assert(is_step(states[p], events[p], states[p + 1], actions[p + 1]));
        assert(actions.take(k + 1).drop_last() =~= actions.take(k));
        assert(actions.take(k + 1).last() == actions[k]);
        if states[k] is AwaitingWrite && states[k - 1] is AwaitingSignUp {
            assert(actions[k] is SendWrite);
        }
    }
}

/// A registration sends at most two requests: the sign-up request, and only
/// as the first action; then the database write, only after a sign-up
/// answer that gave credentials, to the address made of them, and with the
/// classroom's name that the registration started with. It reports
/// success only on the database's success answer, after that write, and
/// then gives the user id that the sign-up answer gave.
pub proof fn law_registration_order(
    mac: Seq<char>,
    classroom_name: Seq<char>,
    api_key: Seq<char>,
    states: Seq<Registration>,
    events: Seq<RegistrationEvent>,
    actions: Seq<RegistrationAction>,
)
    requires
        is_run(mac, classroom_name, api_key, states, events, actions),
    ensures
        request_count(actions) <= 2,
        forall|i: int| 0 <= i < actions.len() && #[trigger] actions[i] is SendSignUp ==> i == 0,
        forall|i: int|
            0 <= i < actions.len() ==> (#[trigger] actions[i] matches RegistrationAction::SendWrite(w) ==> (
            i > 0 && w.name@ == classroom_name && (event_credentials(events[i - 1]) matches Some(c)
                && w.url@ == camera_record_url(c.0, c.1)))),
        forall|i: int|
            0 <= i < actions.len() ==> (#[trigger] actions[i] matches RegistrationAction::Finish(r) ==> (
            r matches Ok(u) ==> i > 0 && write_confirmed(events[i - 1]) && exists|j: int|
                0 < j < i && #[trigger] actions[j] is SendWrite && (event_credentials(events[j - 1]) matches Some(
                    c,
                ) && c.0 == u@))),
{
    let n = actions.len() as int;
    lemma_run_prefix(mac, classroom_name, api_key, states, events, actions, n - 1);
    assert(actions.take(n) =~= actions);
    assert forall|i: int| 0 <= i < actions.len() && #[trigger] actions[i] is SendSignUp implies i == 0 by {
        if i > 0 {
            let p = i - 1;
            assert(is_step(states[p], events[p], states[p + 1], actions[p + 1]));
        }
    }
    assert forall|i: int| 0 <= i < actions.len() implies (#[trigger] actions[i] matches RegistrationAction::SendWrite(w) ==> (
        i > 0 && w.name@ == classroom_name && (event_credentials(events[i - 1]) matches Some(c)
            && w.url@ == camera_record_url(c.0, c.1)))) by {
        if i > 0 {
            let p = i - 1;
            assert(is_step(states[p], events[p], states[p + 1], actions[p + 1]));
            lemma_run_prefix(mac, classroom_name, api_key, states, events, actions, p);
        }
    }
    assert forall|i: int| 0 <= i < actions.len() implies (#[trigger] actions[i] matches RegistrationAction::Finish(r) ==> (
        r matches Ok(u) ==> i > 0 && write_confirmed(events[i - 1]) && exists|j: int|
            0 < j < i && #[trigger] actions[j] is SendWrite && (event_credentials(events[j - 1]) matches Some(c) && c.0 == u@))) by {
        if i > 0 {
            let p = i - 1;
            assert(is_step(states[p], events[p], states[p + 1], actions[p + 1]));
            lemma_run_prefix(mac, classroom_name, api_key, states, events, actions, i - 1);
        }
    }
}

/// Cutting a text made of three parts at the parts' lengths gives the parts back.
proof fn lemma_three_parts(a: Seq<char>, m: Seq<char>, b: Seq<char>)
    ensures
        (a + m + b).len() == a.len() + m.len() + b.len(),
        (a + m + b).take(a.len() as int) == a,
        (a + m + b).subrange(a.len() as int, (a.len() + m.len()) as int) == m,
        (a + m + b).skip((a.len() + m.len()) as int) == b,
{
    assert((a + m + b).take(a.len() as int) =~= a);
    assert((a + m + b).subrange(a.len() as int, (a.len() + m.len()) as int) =~= m);
    assert((a + m + b).skip((a.len() + m.len()) as int) =~= b);
}

/// The sign-up address is the fixed Identity Toolkit address followed by the
/// whole API key, whatever its length.
pub proof fn law_sign_up_url_keeps_key(api_key: Seq<char>)
    ensures
        sign_up_url(api_key).len()
            == "https://identitytoolkit.googleapis.com/v1/accounts:signUp?key="@.len() + api_key.len(),
        sign_up_url(api_key).take(
            "https://identitytoolkit.googleapis.com/v1/accounts:signUp?key="@.len() as int,
        ) == "https://identitytoolkit.googleapis.com/v1/accounts:signUp?key="@,
        sign_up_url(api_key).skip(
            "https://identitytoolkit.googleapis.com/v1/accounts:signUp?key="@.len() as int,
        ) == api_key,
{
    lemma_three_parts(
        "https://identitytoolkit.googleapis.com/v1/accounts:signUp?key="@,
        api_key,
        Seq::empty(),
    );
    assert("https://identitytoolkit.googleapis.com/v1/accounts:signUp?key="@ + api_key
        =~= "https://identitytoolkit.googleapis.com/v1/accounts:signUp?key="@ + api_key + Seq::empty());
}

/// The camera's user name and password hold its whole MAC between their
/// fixed beginning and end.
pub proof fn law_camera_identity_keeps_mac(mac: Seq<char>)
    ensures
        camera_email(mac).len() == "camera_"@.len() + mac.len() + "@umbral.unesum.edu"@.len(),
        camera_email(mac).take("camera_"@.len() as int) == "camera_"@,
        camera_email(mac).subrange("camera_"@.len() as int, ("camera_"@.len() + mac.len()) as int) == mac,
        camera_email(mac).skip(("camera_"@.len() + mac.len()) as int) == "@umbral.unesum.edu"@,
        camera_password(mac).len() == "Umbral."@.len() + mac.len() + "#"@.len(),
        camera_password(mac).take("Umbral."@.len() as int) == "Umbral."@,
        camera_password(mac).subrange("Umbral."@.len() as int, ("Umbral."@.len() + mac.len()) as int) == mac,
        camera_password(mac).skip(("Umbral."@.len() + mac.len()) as int) == "#"@,
{
    lemma_three_parts("camera_"@, mac, "@umbral.unesum.edu"@);
    lemma_three_parts("Umbral."@, mac, "#"@);
}

/// The database address holds the whole user id, then `.json?auth=`, then
/// the whole token, after the fixed address of the cameras' records.
pub proof fn law_record_url_keeps_credentials(uid: Seq<char>, id_token: Seq<char>)
    ensures
        camera_record_url(uid, id_token).len()
            == "https://myapplication-65c31ca7-default-rtdb.firebaseio.com/cameras/"@.len()
            + uid.len() + ".json?auth="@.len() + id_token.len(),
        camera_record_url(uid, id_token).take(
            "https://myapplication-65c31ca7-default-rtdb.firebaseio.com/cameras/"@.len() as int,
        ) == "https://myapplication-65c31ca7-default-rtdb.firebaseio.com/cameras/"@,
        camera_record_url(uid, id_token).subrange(
            "https://myapplication-65c31ca7-default-rtdb.firebaseio.com/cameras/"@.len() as int,
            ("https://myapplication-65c31ca7-default-rtdb.firebaseio.com/cameras/"@.len() + uid.len()) as int,
        ) == uid,
        camera_record_url(uid, id_token).subrange(
            ("https://myapplication-65c31ca7-default-rtdb.firebaseio.com/cameras/"@.len() + uid.len()) as int,
            ("https://myapplication-65c31ca7-default-rtdb.firebaseio.com/cameras/"@.len() + uid.len()
                + ".json?auth="@.len()) as int,
        ) == ".json?auth="@,
        camera_record_url(uid, id_token).skip(
            ("https://myapplication-65c31ca7-default-rtdb.firebaseio.com/cameras/"@.len() + uid.len()
                + ".json?auth="@.len()) as int,
        ) == id_token,
{
    let p = "https://myapplication-65c31ca7-default-rtdb.firebaseio.com/cameras/"@;
    let a = p + uid;
    lemma_three_parts(p, uid, ".json?auth="@ + id_token);
    lemma_three_parts(a, ".json?auth="@, id_token);
    assert(p + uid + (".json?auth="@ + id_token) =~= a + ".json?auth="@ + id_token);
    let u = a + ".json?auth="@ + id_token;
    assert(u.subrange(p.len() as int, (p.len() + uid.len()) as int) =~= a.subrange(p.len() as int, a.len() as int));
}

} // verus!

//! The handlers of client messages: each answers the sender by appending a reply to the
//! sender's outgoing queue.

use vstd::prelude::*;
use vstd::utf8::encode_utf8;

use crate::msg::{
    MsgIn, MsgInAuthData, MsgInEchoData, MsgInPingData, MsgOut, MsgOutAuthData, MsgOutEchoData,
    MsgOutPongData, MsgOutView,
};
use crate::session::{SessionView, Sessions, with_outgoing};

verus! {

/// The number of bytes of the UTF-8 encoding of `s`.
pub open spec fn utf8_len(s: Seq<char>) -> nat {
    encode_utf8(s).len()
}

/// The shortest user identifier, in bytes, that authentication accepts.
pub const MIN_USER_IDENTIFIER_LEN: usize = 6;

/// Whether authentication accepts this request: a user identifier of at least
/// `MIN_USER_IDENTIFIER_LEN` bytes.
pub open spec fn auth_accepted(d: MsgInAuthData) -> bool {
    utf8_len(d.user_identifier@) >= MIN_USER_IDENTIFIER_LEN
}

/// The token handed to an authenticated client.
pub open spec fn granted_access_token() -> Seq<char> {
    "access_token"@
}

/// The reply to a message whose sender has a session.
pub open spec fn reply_to(m: MsgIn) -> MsgOutView {
    match m {
        MsgIn::Echo(d) => MsgOutView::OnEcho { message: d.message@ },
        MsgIn::Ping(d) => MsgOutView::OnPong { timestamp: d.timestamp },
        MsgIn::Auth(d) => MsgOutView::OnAuth {
            success: auth_accepted(d),
            access_token: if auth_accepted(d) { granted_access_token() } else { ""@ },
        },
    }
}

/// The error text of a request without a user identifier.
pub open spec fn empty_identifier_error() -> Seq<char> {
    "user_identifier empty"@
}

/// The error text of a message whose sender has no session.
pub open spec fn sender_not_found_error() -> Seq<char> {
    "Sender not found"@
}

/// Why a message is refused, given whether its sender has a session; `None` where it is
/// answered. An authentication request without a user identifier is refused before the
/// sender is looked up.
pub open spec fn refusal(m: MsgIn, sender_present: bool) -> Option<Seq<char>> {
    if m matches MsgIn::Auth(d) && d.user_identifier@.len() == 0 {
        Some(empty_identifier_error())
    } else if !sender_present {
        Some(sender_not_found_error())
    } else {
        None
    }
}

/// What handling `m` from `key` does to the sessions `before`: the result and the
/// sessions after. A refused message changes nothing; an answered one appends its reply
/// to the sender's outgoing queue.
pub open spec fn handled(
    m: MsgIn,
    key: u32,
    before: Map<u32, SessionView>,
    r: Result<(), String>,
    after: Map<u32, SessionView>,
) -> bool {
    match refusal(m, before.contains_key(key)) {
        Some(e) => r is Err && r->Err_0@ == e && after == before,
        None => r is Ok && after == before.insert(key, with_outgoing(before[key], reply_to(m))),
    }
}

/// Answers an echo request: the sender gets its own text back.
pub fn handle_echo(msg: &MsgInEchoData, sender_key: u32, sessions: &mut Sessions) -> (r: Result<
    (),
    String,
>)
    ensures
        handled(MsgIn::Echo(*msg), sender_key, old(sessions)@, r, final(sessions)@),
{
    if !sessions.contains_key(sender_key) {
        return Err("Sender not found".to_string());
    }
    let message = MsgOutEchoData { message: msg.message.clone() };
    sessions.push_outgoing(sender_key, MsgOut::OnEcho(message));
    Ok(())
}

/// Answers a ping: the sender gets a pong carrying the ping's timestamp.
pub fn handle_ping(msg: &MsgInPingData, sender_key: u32, sessions: &mut Sessions) -> (r: Result<
    (),
    String,
>)
    ensures
        handled(MsgIn::Ping(*msg), sender_key, old(sessions)@, r, final(sessions)@),
{
    if !sessions.contains_key(sender_key) {
        return Err("Sender not found".to_string());
    }
    let message = MsgOutPongData { timestamp: msg.timestamp };
    sessions.push_outgoing(sender_key, MsgOut::OnPong(message));
    Ok(())
}

/// Answers an authentication request. A request without a user identifier is an error;
/// otherwise the sender is told whether it is authenticated, which it is when its user
/// identifier has at least `MIN_USER_IDENTIFIER_LEN` bytes, and is then given its token.
pub fn handle_auth(msg: &MsgInAuthData, sender_key: u32, sessions: &mut Sessions) -> (r: Result<
    (),
    String,
>)
    ensures
        handled(MsgIn::Auth(*msg), sender_key, old(sessions)@, r, final(sessions)@),
{
    if msg.user_identifier.as_str().is_empty() {
        return Err("user_identifier empty".to_string());
    }
    if !sessions.contains_key(sender_key) {
        return Err("Sender not found".to_string());
    }
    if msg.user_identifier.as_str().is_empty() || msg.user_identifier.as_str().as_bytes().len()
        < MIN_USER_IDENTIFIER_LEN {
        let message = MsgOutAuthData { success: false, access_token: "".to_string() };
        sessions.push_outgoing(sender_key, MsgOut::OnAuth(message));
        return Ok(());
    }
    let message = MsgOutAuthData { success: true, access_token: "access_token".to_string() };
    sessions.push_outgoing(sender_key, MsgOut::OnAuth(message));
    Ok(())
}

/// A message from a client without a session is refused, whatever it is, and changes
/// nothing.
pub proof fn lemma_no_session_no_reply(
    m: MsgIn,
    key: u32,
    before: Map<u32, SessionView>,
    r: Result<(), String>,
    after: Map<u32, SessionView>,
)
    requires
        !before.contains_key(key),
        handled(m, key, before, r, after),
    ensures
        r is Err,
        after == before,
{
}

/// An echo is answered with its own text.
pub proof fn lemma_echo_returns_text(
    d: MsgInEchoData,
    key: u32,
    before: Map<u32, SessionView>,
    r: Result<(), String>,
    after: Map<u32, SessionView>,
)
    requires
        before.contains_key(key),
        handled(MsgIn::Echo(d), key, before, r, after),
    ensures
        r is Ok,
        after[key].outbound.last() == (MsgOutView::OnEcho { message: d.message@ }),
        after[key].outbound.drop_last() == before[key].outbound,
{
    assert(after[key].outbound.drop_last() =~= before[key].outbound);
}

/// Authentication succeeds exactly when the user identifier has at least
/// `MIN_USER_IDENTIFIER_LEN` bytes, and the token is handed out exactly then.
pub proof fn lemma_auth_token_only_on_success(d: MsgInAuthData)
    requires
        d.user_identifier@.len() > 0,
    ensures
        reply_to(MsgIn::Auth(d)) matches MsgOutView::OnAuth { success, access_token } && success
            == (utf8_len(d.user_identifier@) >= MIN_USER_IDENTIFIER_LEN) && (success ==> access_token
            == granted_access_token()) && (!success ==> access_token.len() == 0),
{
    reveal_strlit("");
}

/// An authentication request is refused only for an empty user identifier, whether or
/// not the sender has a session, with the error "user_identifier empty". From a sender
/// with a session, any other request is answered: the result is `Ok`, exactly one
/// `OnAuth` reply joins the end of that sender's outgoing queue, succeeding with the
/// token "access_token" exactly when the identifier's UTF-8 encoding has at least 6
/// bytes and otherwise failing with an empty token, and no other session changes.
pub proof fn lemma_auth_outcome(
    d: MsgInAuthData,
    key: u32,
    before: Map<u32, SessionView>,
    r: Result<(), String>,
    after: Map<u32, SessionView>,
)
    requires
        handled(MsgIn::Auth(d), key, before, r, after),
    ensures
        d.user_identifier@.len() == 0 ==> r is Err && r->Err_0@ == "user_identifier empty"@ && after == before,
        d.user_identifier@.len() > 0 && before.contains_key(key) ==> {
            let ok = encode_utf8(d.user_identifier@).len() >= 6;
            &&& r is Ok
            &&& after.dom() == before.dom()
            &&& after[key] == (SessionView {
                outbound: before[key].outbound.push(MsgOutView::OnAuth {
                    success: ok,
                    access_token: if ok { "access_token"@ } else { ""@ },
                }),
                ..before[key]
            })
            &&& forall|k: u32| k != key && #[trigger] before.contains_key(k) ==> after[k] == before[k]
        },
{
    if d.user_identifier@.len() > 0 && before.contains_key(key) {
        assert(after.dom() =~= before.dom());
    }
}

/// Handling a sequence of messages gives at most one reply per message, and exactly one
/// per message when none is an authentication request without a user identifier.
pub proof fn lemma_replies_len(msgs: Seq<MsgIn>)
    ensures
        replies(msgs).len() <= msgs.len(),
        (forall|i: int| 0 <= i < msgs.len() ==> refusal(#[trigger] msgs[i], true) is None)
            ==> replies(msgs).len() == msgs.len(),
    decreases msgs.len(),
{
    if msgs.len() > 0 {
        lemma_replies_len(msgs.drop_last());
        assert forall|i: int| 0 <= i < msgs.drop_last().len() implies msgs.drop_last()[i] == msgs[i] by {}
    }
}

/// Hands a client message to the handler of its kind.
pub fn handle_message(message: MsgIn, sender_key: u32, sessions: &mut Sessions) -> (r: Result<
    (),
    String,
>)
    ensures
        handled(message, sender_key, old(sessions)@, r, final(sessions)@),
{
    match message {
        MsgIn::Echo(data) => handle_echo(&data, sender_key, sessions),
        MsgIn::Ping(data) => handle_ping(&data, sender_key, sessions),
        MsgIn::Auth(data) => handle_auth(&data, sender_key, sessions),
    }
}

/// The replies that a client with a session gets to the messages `msgs`, in order: one
/// per answered message.
pub open spec fn replies(msgs: Seq<MsgIn>) -> Seq<MsgOutView>
    decreases msgs.len(),
{
    if msgs.len() == 0 {
        Seq::empty()
    } else {
        let earlier = replies(msgs.drop_last());
        if refusal(msgs.last(), true) is None {
            earlier.push(reply_to(msgs.last()))
        } else {
            earlier
        }
    }
}

/// The session `s` once every message of its incoming queue has been handled: the queue
/// is empty and the replies follow what was already waiting to go out.
pub open spec fn inbox_handled(s: SessionView) -> SessionView {
    SessionView { inbound: Seq::empty(), outbound: s.outbound + replies(s.inbound), ..s }
}

/// Why each refused message among `msgs`, from a client with a session, was refused,
/// in order.
pub open spec fn refusals(msgs: Seq<MsgIn>) -> Seq<Seq<char>>
    decreases msgs.len(),
{
    if msgs.len() == 0 {
        Seq::empty()
    } else {
        let earlier = refusals(msgs.drop_last());
        match refusal(msgs.last(), true) {
            Some(e) => earlier.push(e),
            None => earlier,
        }
    }
}

/// Whether `report` lists the refusals of one frame over the sessions `before`: one
/// entry per session handled (every session, or only the connected ones where
/// `connected_only`), each session once, each with the errors of its refused messages,
/// in order.
pub open spec fn refusal_report(
    before: Map<u32, SessionView>,
    connected_only: bool,
    report: Seq<(u32, Vec<String>)>,
) -> bool {
    &&& forall|j: int|
        0 <= j < report.len() ==> {
            let k = #[trigger] report[j].0;
            &&& before.contains_key(k)
            &&& (connected_only ==> before[k].alive)
            &&& string_views(report[j].1@) == refusals(before[k].inbound)
        }
    &&& forall|j1: int, j2: int| 0 <= j1 < j2 < report.len() ==> #[trigger] report[j1].0 != #[trigger] report[j2].0
    &&& forall|k: u32|
        before.contains_key(k) && (connected_only ==> before[k].alive)
            ==> exists|j: int| 0 <= j < report.len() && #[trigger] report[j].0 == k
}

/// The texts of a sequence of strings.
pub open spec fn string_views(v: Seq<String>) -> Seq<Seq<char>> {
    v.map_values(|s: String| s@)
}

/// Handles, oldest first, every message in the incoming queue of the session with key
/// `session_key`; each reply goes to that session's outgoing queue. Other sessions stay.
/// Returns the error of each refused message, in order.
pub fn process_inbox(sessions: &mut Sessions, session_key: u32) -> (errors: Vec<String>)
    requires
        old(sessions)@.contains_key(session_key),
    ensures
        final(sessions)@ == old(sessions)@.insert(session_key, inbox_handled(old(sessions)@[session_key])),
        string_views(errors@) == refusals(old(sessions)@[session_key].inbound),
{
    let mut errors: Vec<String> = Vec::new();
    let ghost start = old(sessions)@[session_key];
    let ghost n = start.inbound.len();
    let ghost mut i: int = 0;
    assert(start.inbound.skip(0) =~= start.inbound);
    assert(start.inbound.take(0) =~= Seq::<MsgIn>::empty());
    assert(start.outbound + replies(start.inbound.take(0)) =~= start.outbound);
    assert(old(sessions)@ =~= old(sessions)@.insert(session_key, start));
    assert(string_views(errors@) =~= refusals(start.inbound.take(0)));
    loop
        invariant
            0 <= i <= n,
            n == start.inbound.len(),
            start == old(sessions)@[session_key],
            sessions@.contains_key(session_key),
            sessions@ == old(sessions)@.insert(session_key, sessions@[session_key]),
            sessions@[session_key] == (SessionView {
                inbound: start.inbound.skip(i),
                outbound: start.outbound + replies(start.inbound.take(i)),
                ..start
            }),
            string_views(errors@) == refusals(start.inbound.take(i)),
        ensures
            sessions@ == old(sessions)@.insert(session_key, inbox_handled(start)),
            string_views(errors@) == refusals(start.inbound),
        decreases n - i,
    {
        match sessions.pop_incoming(session_key) {
            None => {
                assert(i == n);
                assert(start.inbound.take(i) =~= start.inbound);
                assert(string_views(errors@) == refusals(start.inbound));
                assert(start.inbound.skip(i) =~= Seq::<MsgIn>::empty());
                assert(sessions@ =~= old(sessions)@.insert(session_key, inbox_handled(start)));
                break;
            },
            Some(m) => {
                assert(i < n);
                assert(m == start.inbound[i]);
                assert(start.inbound.take(i + 1).drop_last() =~= start.inbound.take(i));
                assert(start.inbound.take(i + 1).last() == start.inbound[i]);
                assert(start.inbound.skip(i).drop_first() =~= start.inbound.skip(i + 1));
                let ghost errs_before = errors@;
                match handle_message(m, session_key, sessions) {
                    Ok(()) => {},
                    Err(e) => {
                        errors.push(e);
                    },
                }
                proof {
                    match refusal(m, true) {
                        Some(e) => {
                            assert(string_views(errors@) =~= string_views(errs_before).push(e));
                        },
                        None => {
                            assert(errors@ == errs_before);
                        },
                    }
                    i = i + 1;
                    let r = replies(start.inbound.take(i - 1));
                    if refusal(m, true) is None {
                        assert(start.outbound + r.push(reply_to(m)) =~= (start.outbound + r).push(reply_to(m)));
                    }
                }
                assert(sessions@ =~= old(sessions)@.insert(session_key, sessions@[session_key]));
            },
        }
    }
    errors
}

} // verus!

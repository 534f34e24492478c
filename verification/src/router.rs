//! The request pipeline and the per-connection state machine.
//!
//! Each inbound frame runs three stages: the starting transform parses
//! it, the middleware for its method decides, and the ending transform
//! serializes the reply.  `handle_request` is that pipeline over the
//! default stages; `conn_step` is the connection state machine that
//! turns a pipeline outcome into the next action and phase.

use vstd::prelude::*;

pub mod app;
pub mod state;

use crate::request::{spec_parse_request, Method, RawRequest, Version};
use crate::response::{
    resp_strings_wf, spec_code_only, spec_render_response, w_time, RespModel, ResponseCode,
};
use crate::text::{ascii_bytes, ascii_str, chars_wf, trim_zeros, value_wf, zero_pad};
use crate::timestamp::{spec_render_timestamp, Timestamp};
use crate::varmap::{AttachmentKey, Varmap};
use crate::wares::starting_bytesware::{spec_parse_error_code, DefaultStartingBytesware};
use app::App;

verus! {

/// Where the listener binds: host and port.
#[derive(Clone, Debug)]
pub struct Config {
    pub ip: String,
    pub port: u16,
}

impl Config {
    /// The default endpoint.
    pub fn new_default() -> (c: Config)
        ensures
            c.ip@ == "127.0.0.1"@,
            c.port == 8080,
    {
        Config { ip: "127.0.0.1".to_owned(), port: 8080 }
    }
}

/// A pipeline outcome: which method ran, and the reply frame with its
/// success or failure polarity.  `Unclassified` marks a frame that never
/// reached a middleware.
#[derive(Debug)]
pub enum RouteRes {
    Handshake(Result<[u8; 512], [u8; 512]>),
    Send(Result<[u8; 512], [u8; 512]>),
    Bind(Result<[u8; 512], [u8; 512]>),
    Unclassified(Result<[u8; 512], [u8; 512]>),
}

/// The life of a connection: fresh, streaming, or done.
#[derive(Clone, Copy, Debug, PartialEq, Eq, Structural)]
pub enum ConnPhase {
    Initial,
    Subscribed,
    Closed,
}

/// The frame a response model serializes to.
pub open spec fn spec_frame_of(m: RespModel) -> Seq<u8> {
    zero_pad(spec_render_response(m))
}

/// The reply to a successful bind: `AuthOK` carrying the token.
pub open spec fn spec_auth_ok(token: Seq<char>) -> RespModel {
    RespModel { token: Some(token), ..spec_code_only(ResponseCode::AuthOK) }
}

/// The broadcast reply to a message: `OK`, the sender, a `Time` header,
/// and the message.
pub open spec fn spec_send_ok(name: Seq<char>, msg: Seq<char>, ts: Timestamp) -> RespModel {
    RespModel {
        user: Some(name),
        message: Some(msg),
        custom: seq![(ascii_str(w_time()), ascii_str(spec_render_timestamp(ts)))],
        ..spec_code_only(ResponseCode::OK)
    }
}

/// The pair of indexes after a successful registration of `name` under
/// `token`, relative to the state before.
pub open spec fn spec_registered(
    app0: App,
    app1: App,
    name: Seq<char>,
    token: Seq<char>,
) -> bool {
    &&& app0.names.spec_get(name) is None
    &&& app1.names.spec_get(name) == Some(token)
    &&& app1.auth.spec_get(token) == Some(name)
    &&& forall|n: Seq<char>| n != name ==> app1.names.spec_get(n) == app0.names.spec_get(n)
    &&& forall|t: Seq<char>| t != token ==> app1.auth.spec_get(t) == app0.auth.spec_get(t)
}

/// Runs one inbound frame through the default pipeline: parse, dispatch
/// by method, serialize.  While the connection has not completed a
/// handshake, a `Send` is answered `Unauthorized` without consulting the
/// middleware.
pub fn handle_request(
    app: &mut App,
    conn: &mut Varmap,
    req_bytes: [u8; 512],
    addr: String,
    is_handshake: bool,
) -> (r: RouteRes)
    requires
        old(app).wf(),
    ensures
        final(app).wf(),
        final(app).extension == old(app).extension,
        ({
            let sp = spec_parse_request(trim_zeros(req_bytes@));
            match sp {
                Err(e) => {
                    &&& r matches RouteRes::Unclassified(Err(f)) && f@ == spec_frame_of(
                        spec_code_only(spec_parse_error_code(e)),
                    )
                    &&& *final(app) == *old(app)
                    &&& *final(conn) == *old(conn)
                },
                Ok(m) => match m.method {
                    Method::Bind => {
                        &&& *final(conn) == *old(conn)
                        &&& old(app).names.spec_get(m.value) is Some ==> (r matches
                        RouteRes::Bind(res) && res is Err)
                        &&& (r matches RouteRes::Bind(res) && res is Err) ==> old(
                            app,
                        ).names.spec_get(m.value) is Some || (exists|t: Seq<char>|
                            (#[trigger] old(app).auth.spec_get(t)) is Some)
                        &&& match r {
                            RouteRes::Bind(Ok(f)) => exists|t: Seq<char>|
                                {
                                    &&& #[trigger] spec_registered(*old(app), *final(app), m.value, t)
                                    &&& t.len() == 36
                                    &&& f@ == spec_frame_of(spec_auth_ok(t))
                                },
                            RouteRes::Bind(Err(f)) => f@ == spec_frame_of(
                                spec_code_only(ResponseCode::AlreadyTaken),
                            ) && *final(app) == *old(app),
                            _ => false,
                        }
                    },
                    Method::Handshake => {
                        &&& *final(app) == *old(app)
                        &&& match old(app).auth.spec_get(m.value) {
                            Some(name) => {
                                &&& r matches RouteRes::Handshake(Ok(f)) && f@ == spec_frame_of(
                                    spec_code_only(ResponseCode::AuthOK),
                                )
                                &&& final(conn).spec_user_name() == Some(name)
                                &&& forall|k: AttachmentKey|
                                    k != AttachmentKey::UserName ==> final(conn).spec_get(k)
                                        == old(conn).spec_get(k)
                            },
                            None => {
                                &&& r matches RouteRes::Handshake(Err(f)) && f@ == spec_frame_of(
                                    spec_code_only(ResponseCode::Unauthorized),
                                )
                                &&& *final(conn) == *old(conn)
                            },
                        }
                    },
                    Method::Send => {
                        &&& *final(app) == *old(app)
                        &&& *final(conn) == *old(conn)
                        &&& if !is_handshake {
                            r matches RouteRes::Send(Err(f)) && f@ == spec_frame_of(
                                spec_code_only(ResponseCode::Unauthorized),
                            )
                        } else {
                            match old(conn).spec_user_name() {
                                Some(name) => exists|ts: Timestamp|
                                    {
                                        &&& #[trigger] ts.wf()
                                        &&& ({
                                            let mm = spec_send_ok(name, m.value, ts);
                                            if resp_strings_wf(mm) && spec_render_response(
                                                mm,
                                            ).len() <= 512 {
                                                r matches RouteRes::Send(Ok(f)) && f@
                                                    == spec_frame_of(mm)
                                            } else {
                                                r matches RouteRes::Send(Err(f)) && f@
                                                    == spec_frame_of(
                                                    spec_code_only(ResponseCode::FatalError),
                                                )
                                            }
                                        })
                                    },
                                None => r matches RouteRes::Send(Err(f)) && f@ == spec_frame_of(
                                    spec_code_only(ResponseCode::InvalidName),
                                ),
                            }
                        }
                    },
                },
            }
        }),
{
    let raw_req = RawRequest { bytes: req_bytes, addr };
    let starting = DefaultStartingBytesware;
    let req = match starting.bytesware(raw_req) {
        Ok(req) => req,
        Err(resp) => {
            let ending = crate::wares::ending_bytesware::default_send::DefaultEndingBytesware;
            let out = ending.bytesware(Err(resp));
            proof {
                let e = spec_parse_request(trim_zeros(req_bytes@))->Err_0;
                crate::response::lemma_code_only_fits(spec_parse_error_code(e));
            }
            return RouteRes::Unclassified(out);
        },
    };
    match req.method {
        Method::Bind => {
            let mw = crate::wares::middleware::default_bind::DefaultMiddleware;
            let second = mw.middleware(&req, app);
            let ending = crate::wares::ending_bytesware::default_bind::DefaultEndingBytesware;
            let ghost token_view: Seq<char> = match second {
                Ok(ref resp) => match resp.token {
                    Some(ref t) => t@,
                    None => Seq::empty(),
                },
                Err(_) => Seq::empty(),
            };
            proof {
                crate::response::lemma_code_only_fits(ResponseCode::AlreadyTaken);
                if second is Ok {
                    lemma_auth_ok_fits(token_view);
                    assert(second->Ok_0.spec_model() == spec_auth_ok(token_view));
                } else {
                    assert(second->Err_0.spec_model() == spec_code_only(
                        ResponseCode::AlreadyTaken,
                    ));
                }
            }
            let out = ending.bytesware(second);
            proof {
                if second is Ok {
                    assert(out is Ok);
                    assert(out->Ok_0@ == spec_frame_of(spec_auth_ok(token_view)));
                    assert(spec_registered(*old(app), *app, req.value@, token_view));
                } else {
                    assert(out is Err);
                    assert(out->Err_0@ == spec_frame_of(spec_code_only(
                        ResponseCode::AlreadyTaken,
                    )));
                }
            }
            RouteRes::Bind(out)
        },
        Method::Send => {
            if is_handshake {
                let now = crate::timestamp::utc_now();
                let mw = crate::wares::middleware::default_send::DefaultMiddleware;
                let second = mw.middleware(&req, conn, &now);
                let ending = crate::wares::ending_bytesware::default_send::DefaultEndingBytesware;
                proof {
                    crate::response::lemma_code_only_fits(ResponseCode::InvalidName);
                    crate::response::lemma_code_only_fits(ResponseCode::FatalError);
                    if second is Ok {
                        let m = spec_parse_request(trim_zeros(req_bytes@))->Ok_0;
                        let name = old(conn).spec_user_name()->0;
                        assert(second->Ok_0.spec_model() == spec_send_ok(name, m.value, now));
                    }
                }
                RouteRes::Send(ending.bytesware(second))
            } else {
                let res = crate::response::code_only_response(ResponseCode::Unauthorized);
                let ending = crate::wares::ending_bytesware::default_send::DefaultEndingBytesware;
                proof {
                    crate::response::lemma_code_only_fits(ResponseCode::Unauthorized);
                }
                RouteRes::Send(ending.bytesware(Err(res)))
            }
        },
        Method::Handshake => {
            let mw = crate::wares::middleware::default_handshake::DefaultMiddleware;
            let second = mw.middleware(&req, app, conn);
            let ending = crate::wares::ending_bytesware::default_handshake::DefaultEndingBytesware;
            proof {
                crate::response::lemma_code_only_fits(ResponseCode::AuthOK);
                crate::response::lemma_code_only_fits(ResponseCode::Unauthorized);
            }
            RouteRes::Handshake(ending.bytesware(second))
        },
    }
}

/// The `AuthOK` reply carrying a token fits a frame.
proof fn lemma_auth_ok_fits(token: Seq<char>)
    requires
        token.len() == 36,
        chars_wf(token),
        value_wf(ascii_bytes(token)),
    ensures
        resp_strings_wf(spec_auth_ok(token)),
        spec_render_response(spec_auth_ok(token)).len() <= 100,
{
    let m = spec_auth_ok(token);
    let lines = crate::response::spec_response_lines(m);
    let tline = crate::text::render_kv_quoted(crate::response::w_token(), ascii_bytes(token));
    assert(lines =~= seq![
        crate::request::w_version_line(),
        crate::response::spec_code_line(ResponseCode::AuthOK),
        tline,
    ]);
    assert(tline.len() == 36 + 10);
    assert(crate::response::spec_code_line(ResponseCode::AuthOK).len() <= 11);
    let tail = lines.drop_first();
    assert(tail =~= seq![crate::response::spec_code_line(ResponseCode::AuthOK), tline]);
    assert(tail.drop_first() =~= seq![tline]);
    assert(crate::text::join_lines(tail.drop_first()) == tline);
    assert(crate::text::join_lines(tail) =~= crate::response::spec_code_line(ResponseCode::AuthOK)
        + seq![crate::text::NL] + tline);
    assert(crate::text::join_lines(lines) =~= crate::request::w_version_line() + seq![
        crate::text::NL,
    ] + crate::text::join_lines(tail));
}

/// Runs one inbound frame for a subscribed connection: only `Send` may
/// run; any other parsed method is answered `Error` without consulting
/// its middleware.
pub fn handle_streaming_request(conn: &Varmap, req_bytes: [u8; 512], addr: String) -> (r:
    RouteRes)
    ensures
        ({
            let sp = spec_parse_request(trim_zeros(req_bytes@));
            match sp {
                Err(e) => r matches RouteRes::Unclassified(Err(f)) && f@ == spec_frame_of(
                    spec_code_only(spec_parse_error_code(e)),
                ),
                Ok(m) => match m.method {
                    Method::Send => match conn.spec_user_name() {
                        Some(name) => exists|ts: Timestamp|
                            {
                                &&& #[trigger] ts.wf()
                                &&& ({
                                    let mm = spec_send_ok(name, m.value, ts);
                                    if resp_strings_wf(mm) && spec_render_response(mm).len()
                                        <= 512 {
                                        r matches RouteRes::Send(Ok(f)) && f@ == spec_frame_of(mm)
                                    } else {
                                        r matches RouteRes::Send(Err(f)) && f@ == spec_frame_of(
                                            spec_code_only(ResponseCode::FatalError),
                                        )
                                    }
                                })
                            },
                        None => r matches RouteRes::Send(Err(f)) && f@ == spec_frame_of(
                            spec_code_only(ResponseCode::InvalidName),
                        ),
                    },
                    _ => r matches RouteRes::Unclassified(Err(f)) && f@ == spec_frame_of(
                        spec_code_only(ResponseCode::Error),
                    ),
                },
            }
        }),
{
    let raw_req = RawRequest { bytes: req_bytes, addr };
    let starting = DefaultStartingBytesware;
    let ending = crate::wares::ending_bytesware::default_send::DefaultEndingBytesware;
    let req = match starting.bytesware(raw_req) {
        Ok(req) => req,
        Err(resp) => {
            let out = ending.bytesware(Err(resp));
            proof {
                let e = spec_parse_request(trim_zeros(req_bytes@))->Err_0;
                crate::response::lemma_code_only_fits(spec_parse_error_code(e));
            }
            return RouteRes::Unclassified(out);
        },
    };
    match req.method {
        Method::Send => {
            let now = crate::timestamp::utc_now();
            let mw = crate::wares::middleware::default_send::DefaultMiddleware;
            let second = mw.middleware(&req, conn, &now);
            proof {
                crate::response::lemma_code_only_fits(ResponseCode::InvalidName);
                crate::response::lemma_code_only_fits(ResponseCode::FatalError);
                if second is Ok {
                    let m = spec_parse_request(trim_zeros(req_bytes@))->Ok_0;
                    let name = conn.spec_user_name()->0;
                    assert(second->Ok_0.spec_model() == spec_send_ok(name, m.value, now));
                }
            }
            RouteRes::Send(ending.bytesware(second))
        },
        _ => {
            let res = crate::response::code_only_response(ResponseCode::Error);
            proof {
                crate::response::lemma_code_only_fits(ResponseCode::Error);
            }
            RouteRes::Unclassified(ending.bytesware(Err(res)))
        },
    }
}

/// What the connection's task should do next.
#[derive(Debug)]
pub enum ConnAction {
    /// Write the frame and keep reading.
    Reply([u8; 512]),
    /// Write the frame, enable keepalive, and enter the streaming loop.
    ReplyAndSubscribe([u8; 512]),
    /// Write the frame, then close the connection.
    ReplyAndClose([u8; 512]),
    /// Hand the frame to the broadcaster's ingress queue.
    Publish([u8; 512]),
    /// Close without writing.
    Close,
    /// Report a lagged broadcast receiver and carry on.
    ReportLag,
}

/// What the broadcast side of a streaming connection saw.
#[derive(Debug)]
pub enum BroadcastEvent {
    /// A frame to forward to this subscriber.
    Frame([u8; 512]),
    /// The receiver fell behind and missed frames.
    Lagged,
    /// The channel is gone.
    ChannelClosed,
}

/// True of a frame whose second line carries the fatal code: the one
/// reply after which a connection must close, whatever its route.
pub open spec fn spec_frame_fatal(bytes: Seq<u8>) -> bool {
    let lines = crate::text::split_lines(trim_zeros(bytes));
    lines.len() >= 2 && crate::response::spec_parse_code_line(lines[1]) == Some(
        ResponseCode::FatalError,
    )
}

/// Recognizes a fatal reply frame by its code line.
pub fn frame_is_fatal(frame: &[u8; 512]) -> (r: bool)
    ensures
        r == spec_frame_fatal(frame@),
{
    let end = crate::text::text_end(frame);
    let v = crate::text::slice_range(frame.as_slice(), 0, end);
    let ghost lines = crate::text::split_lines(v@);
    let n = v.len();
    if n == 0 {
        return false;
    }
    let e0 = crate::text::find_line_end(v, 0);
    if e0 == n {
        proof {
            assert(lines =~= seq![v@.subrange(0, e0 as int)]);
        }
        return false;
    }
    let p1 = e0 + 1;
    if p1 == n {
        proof {
            assert(crate::text::lines_from(v@, p1 as int) =~= Seq::<Seq<u8>>::empty());
            assert(lines =~= seq![v@.subrange(0, e0 as int)] + crate::text::lines_from(
                v@,
                p1 as int,
            ));
        }
        return false;
    }
    let e1 = crate::text::find_line_end(v, p1);
    proof {
        assert(crate::text::lines_from(v@, p1 as int)[0] == v@.subrange(p1 as int, e1 as int));
        assert(lines[1] == v@.subrange(p1 as int, e1 as int));
    }
    match crate::response::parse_code_bytes(crate::text::slice_range(v, p1, e1)) {
        Some(ResponseCode::FatalError) => true,
        _ => false,
    }
}

/// The next move of a connection still in `Initial`, given a pipeline
/// outcome: binds loop, a good handshake promotes, a fatal reply or any
/// other outcome closes after the reply.
pub open spec fn spec_initial_step(res: RouteRes) -> (ConnAction, ConnPhase) {
    match res {
        RouteRes::Bind(Ok(f)) => (ConnAction::Reply(f), ConnPhase::Initial),
        RouteRes::Bind(Err(f)) => if spec_frame_fatal(f@) {
            (ConnAction::ReplyAndClose(f), ConnPhase::Closed)
        } else {
            (ConnAction::Reply(f), ConnPhase::Initial)
        },
        RouteRes::Handshake(Ok(f)) => (ConnAction::ReplyAndSubscribe(f), ConnPhase::Subscribed),
        RouteRes::Handshake(Err(f)) => (ConnAction::ReplyAndClose(f), ConnPhase::Closed),
        RouteRes::Send(Ok(f)) => (ConnAction::ReplyAndClose(f), ConnPhase::Closed),
        RouteRes::Send(Err(f)) => (ConnAction::ReplyAndClose(f), ConnPhase::Closed),
        RouteRes::Unclassified(Ok(f)) => (ConnAction::ReplyAndClose(f), ConnPhase::Closed),
        RouteRes::Unclassified(Err(f)) => (ConnAction::ReplyAndClose(f), ConnPhase::Closed),
    }
}

pub fn initial_step(res: RouteRes) -> (r: (ConnAction, ConnPhase))
    ensures
        r == spec_initial_step(res),
{
    match res {
        RouteRes::Bind(Ok(f)) => (ConnAction::Reply(f), ConnPhase::Initial),
        RouteRes::Bind(Err(f)) => {
            if frame_is_fatal(&f) {
                (ConnAction::ReplyAndClose(f), ConnPhase::Closed)
            } else {
                (ConnAction::Reply(f), ConnPhase::Initial)
            }
        },
        RouteRes::Handshake(Ok(f)) => (ConnAction::ReplyAndSubscribe(f), ConnPhase::Subscribed),
        RouteRes::Handshake(Err(f)) => (ConnAction::ReplyAndClose(f), ConnPhase::Closed),
        RouteRes::Send(Ok(f)) => (ConnAction::ReplyAndClose(f), ConnPhase::Closed),
        RouteRes::Send(Err(f)) => (ConnAction::ReplyAndClose(f), ConnPhase::Closed),
        RouteRes::Unclassified(Ok(f)) => (ConnAction::ReplyAndClose(f), ConnPhase::Closed),
        RouteRes::Unclassified(Err(f)) => (ConnAction::ReplyAndClose(f), ConnPhase::Closed),
    }
}

/// Whether a failure reply lets the streaming loop go on, or ends it: a
/// fatal frame closes the connection, every other failure is answered
/// to this connection alone.
pub open spec fn spec_streaming_failure(f: [u8; 512]) -> (ConnAction, ConnPhase) {
    if spec_frame_fatal(f@) {
        (ConnAction::ReplyAndClose(f), ConnPhase::Closed)
    } else {
        (ConnAction::Reply(f), ConnPhase::Subscribed)
    }
}

/// The next move of a subscribed connection on an inbound outcome: a
/// good `Send` is published for fan-out, never echoed locally; a fatal
/// reply is written and the connection closes; every other outcome is
/// answered to this connection alone and the loop goes on.
pub open spec fn spec_subscribed_step(res: RouteRes) -> (ConnAction, ConnPhase) {
    match res {
        RouteRes::Send(Ok(f)) => (ConnAction::Publish(f), ConnPhase::Subscribed),
        RouteRes::Send(Err(f)) => spec_streaming_failure(f),
        RouteRes::Bind(Ok(f)) => (ConnAction::Reply(f), ConnPhase::Subscribed),
        RouteRes::Bind(Err(f)) => spec_streaming_failure(f),
        RouteRes::Handshake(Ok(f)) => (ConnAction::Reply(f), ConnPhase::Subscribed),
        RouteRes::Handshake(Err(f)) => spec_streaming_failure(f),
        RouteRes::Unclassified(Ok(f)) => (ConnAction::Reply(f), ConnPhase::Subscribed),
        RouteRes::Unclassified(Err(f)) => spec_streaming_failure(f),
    }
}

pub fn subscribed_step(res: RouteRes) -> (r: (ConnAction, ConnPhase))
    ensures
        r == spec_subscribed_step(res),
{
    match res {
        RouteRes::Send(Ok(f)) => (ConnAction::Publish(f), ConnPhase::Subscribed),
        RouteRes::Send(Err(f)) => streaming_failure(f),
        RouteRes::Bind(Ok(f)) => (ConnAction::Reply(f), ConnPhase::Subscribed),
        RouteRes::Bind(Err(f)) => streaming_failure(f),
        RouteRes::Handshake(Ok(f)) => (ConnAction::Reply(f), ConnPhase::Subscribed),
        RouteRes::Handshake(Err(f)) => streaming_failure(f),
        RouteRes::Unclassified(Ok(f)) => (ConnAction::Reply(f), ConnPhase::Subscribed),
        RouteRes::Unclassified(Err(f)) => streaming_failure(f),
    }
}

fn streaming_failure(f: [u8; 512]) -> (r: (ConnAction, ConnPhase))
    ensures
        r == spec_streaming_failure(f),
{
    if frame_is_fatal(&f) {
        (ConnAction::ReplyAndClose(f), ConnPhase::Closed)
    } else {
        (ConnAction::Reply(f), ConnPhase::Subscribed)
    }
}

/// The next move of a subscribed connection on a broadcast event: a
/// frame is written through in arrival order, lag is reported and the
/// loop goes on, a closed channel ends the connection.
pub open spec fn spec_broadcast_step(ev: BroadcastEvent) -> (ConnAction, ConnPhase) {
    match ev {
        BroadcastEvent::Frame(f) => (ConnAction::Reply(f), ConnPhase::Subscribed),
        BroadcastEvent::Lagged => (ConnAction::ReportLag, ConnPhase::Subscribed),
        BroadcastEvent::ChannelClosed => (ConnAction::Close, ConnPhase::Closed),
    }
}

pub fn broadcast_step(ev: BroadcastEvent) -> (r: (ConnAction, ConnPhase))
    ensures
        r == spec_broadcast_step(ev),
{
    match ev {
        BroadcastEvent::Frame(f) => (ConnAction::Reply(f), ConnPhase::Subscribed),
        BroadcastEvent::Lagged => (ConnAction::ReportLag, ConnPhase::Subscribed),
        BroadcastEvent::ChannelClosed => (ConnAction::Close, ConnPhase::Closed),
    }
}

/// Two binds of one name cannot both win.  A success leaves the name
/// bound, and `register` refuses every bound name — so of two
/// registrations of the same name, serialized by the lock around the
/// shared state, at most one returns a token; and since a refusal needs
/// a cause (the name taken, or a drawn token colliding with the reverse
/// index), on a state whose reverse index is empty exactly one wins.
pub proof fn lemma_bind_exclusive(app0: App, app1: App, name: Seq<char>, token: Seq<char>)
    requires
        spec_registered(app0, app1, name, token),
    ensures
        app1.names.spec_get(name) is Some,
{
}

/// A successful binding readies the session: the very token it returned
/// resolves back to the bound name, so the handshake middleware accepts
/// it and stores the name on the connection, where the send middleware's
/// contract finds it and owes a successful reply.
pub proof fn lemma_bind_enables_session(app: App, name: Seq<char>, token: Seq<char>)
    requires
        app.wf(),
        app.names.spec_get(name) == Some(token),
    ensures
        app.auth.spec_get(token) == Some(name),
{
}

} // verus!

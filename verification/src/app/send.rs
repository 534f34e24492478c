//! Color-aware send pipeline: a starting transform that strips the color
//! mark off the frame tail, a middleware that times the request and
//! carries the color over, and an ending transform that stamps the mark
//! onto the reply.

use vstd::prelude::*;
use crate::color::{
    fill_bytes, has_color_mark, spec_clear_mark, spec_color_of, spec_stamp_mark, stamp_color,
};
use crate::logging::Message;
use crate::request::{spec_parse_request, Method, RawRequest, Request, Version, req_matches};
use crate::response::{
    resp_strings_wf, spec_code_only, spec_render_response, w_time, Response, ResponseCode,
};
use crate::router::{spec_send_ok, RouteRes};
use crate::strmap::StrMap;
use crate::text::{ascii_str, trim_zeros, zero_pad};
use crate::timestamp::{spec_render_timestamp, Timestamp};
use crate::varmap::{Attachment, AttachmentKey, Varmap};
use crate::wares::ending_bytesware::serialize_outcome;
use crate::wares::starting_bytesware::spec_parse_error_code;

verus! {

pub use crate::color::Color;

/// The frame as text parsing must see it: a marked tail zeroed first.
pub open spec fn spec_unmarked(bytes: Seq<u8>) -> Seq<u8> {
    if has_color_mark(bytes) {
        spec_clear_mark(bytes)
    } else {
        bytes
    }
}

/// Starting transform that recognizes the color mark: the five tail
/// bytes are zeroed before parsing, and the color and the arrival clock
/// reading are stuck to the request.
#[derive(Debug)]
pub struct SendStartingBytesware;

impl SendStartingBytesware {
    pub fn bytesware(&self, raw_req: RawRequest, arrival_micros: u64) -> (r: Result<
        Request,
        Response,
    >)
        ensures
            ({
                let sp = spec_parse_request(trim_zeros(spec_unmarked(raw_req.bytes@)));
                match (r, sp) {
                    (Ok(req), Ok(m)) => {
                        &&& req_matches(req, m)
                        &&& req.addr@ == raw_req.addr@
                        &&& req.custom.wf()
                        &&& req.varmap.spec_color() == if has_color_mark(raw_req.bytes@) {
                            Some(spec_color_of(raw_req.bytes@))
                        } else {
                            None
                        }
                        &&& req.varmap.spec_arrival_micros() == Some(arrival_micros)
                        &&& req.varmap.spec_user_name() is None
                        &&& req.varmap.spec_task_id() is None
                    },
                    (Err(resp), Err(e)) => resp.spec_model() == spec_code_only(
                        spec_parse_error_code(e),
                    ) && resp.strings_wf(),
                    _ => false,
                }
            }),
    {
        let mut bytes = raw_req.bytes;
        let color_res = fill_bytes(&mut bytes);
        let cleaned = RawRequest { bytes, addr: raw_req.addr };
        match Request::from_raw_request(cleaned) {
            Ok(mut req) => {
                if let Ok(color) = color_res {
                    req.varmap.insert(Attachment::Color(color));
                    proof {
                        assert(req.varmap.spec_get(AttachmentKey::Color) == Some(
                            Attachment::Color(color),
                        ));
                        assert(req.varmap.spec_color() == Some(color));
                    }
                }
                req.varmap.insert(Attachment::ArrivalMicros(arrival_micros));
                proof {
                    assert(req.varmap.spec_arrival_micros() == Some(arrival_micros));
                    if has_color_mark(raw_req.bytes@) {
                        assert(color_res == Ok::<Color, ()>(spec_color_of(raw_req.bytes@)));
                        assert(req.varmap.spec_get(AttachmentKey::Color) == Some(
                            Attachment::Color(spec_color_of(raw_req.bytes@)),
                        ));
                        assert(req.varmap.spec_color() == Some(spec_color_of(raw_req.bytes@)));
                    } else {
                        assert(req.varmap.spec_get(AttachmentKey::Color) is None);
                        assert(req.varmap.spec_color() is None);
                    }
                    assert(req.varmap.spec_get(AttachmentKey::UserName) is None);
                    assert(req.varmap.spec_get(AttachmentKey::TaskId) is None);
                }
                Ok(req)
            },
            Err(e) => {
                let code = crate::wares::starting_bytesware::parse_error_code(e);
                Err(crate::response::code_only_response(code))
            },
        }
    }
}

/// Send middleware that also reports timing and carries the color from
/// the request's attachments onto the reply's.
#[derive(Debug)]
pub struct SendMiddleware;

impl SendMiddleware {
    /// Like the default send middleware, and besides: the reply carries
    /// the request's color attachment, and when the connection knows its
    /// serving task a timing event is handed back for the telemetry
    /// sink.
    pub fn middleware(
        &self,
        req: &Request,
        conn: &Varmap,
        now: &Timestamp,
        elapsed_micros: u64,
    ) -> (r: (Result<Response, Response>, Option<Message>))
        requires
            now.wf(),
        ensures
            match conn.spec_user_name() {
                Some(name) => {
                    &&& r.0 is Ok
                    &&& ({
                        let resp = r.0->Ok_0;
                        &&& resp.code == ResponseCode::OK
                        &&& resp.version == Version::CHAT10
                        &&& resp.token is None && resp.time is None
                        &&& resp.user is Some && resp.user->0@ == name
                        &&& resp.message is Some && resp.message->0@ == req.value@
                        &&& resp.custom is Some
                        &&& resp.custom->0.spec_pairs() =~= seq![
                            (
                                ascii_str(w_time()),
                                ascii_str(spec_render_timestamp(*now)),
                            ),
                        ]
                        &&& resp.custom->0.wf()
                        &&& match req.varmap.spec_color() {
                            Some(c) => resp.varmap is Some && resp.varmap->0.spec_color()
                                == Some(c),
                            None => resp.varmap is None,
                        }
                    })
                    &&& r.1 == match conn.spec_task_id() {
                        Some(tid) => Some(Message::Elapsed(tid, *now, elapsed_micros)),
                        None => None::<Message>,
                    }
                },
                None => {
                    &&& r.0 is Err
                    &&& r.0->Err_0.spec_model() == spec_code_only(ResponseCode::InvalidName)
                    &&& r.0->Err_0.strings_wf()
                    &&& r.1 is None
                },
            },
    {
        let name = match conn.get(AttachmentKey::UserName) {
            Some(Attachment::UserName(s)) => s,
            _ => {
                return (
                    Err(crate::response::code_only_response(ResponseCode::InvalidName)),
                    None,
                );
            },
        };
        let event = match conn.get(AttachmentKey::TaskId) {
            Some(Attachment::TaskId(tid)) => Some(Message::Elapsed(tid, *now, elapsed_micros)),
            _ => None,
        };
        let mut custom = StrMap::new();
        let tkey = crate::response::time_key_str();
        let tval = crate::timestamp::format_timestamp(now);
        custom.insert(tkey, tval);
        let varmap = match req.varmap.get(AttachmentKey::Color) {
            Some(Attachment::Color(c)) => {
                let mut vm = Varmap::new();
                vm.insert(Attachment::Color(c));
                Some(vm)
            },
            _ => None,
        };
        let resp = Response {
            code: ResponseCode::OK,
            version: Version::CHAT10,
            token: None,
            user: Some(name),
            time: None,
            message: Some(req.value.clone()),
            custom: Some(custom),
            varmap,
        };
        (Ok(resp), event)
    }
}

/// Ending transform that stamps the color mark onto a successful reply
/// whose attachments carry a color.
#[derive(Debug)]
pub struct SendEndingBytesware;

impl SendEndingBytesware {
    pub fn bytesware(&self, res: Result<Response, Response>) -> (r: Result<[u8; 512], [u8; 512]>)
        ensures
            match res {
                Ok(resp) => match r {
                    Ok(f) => {
                        &&& resp.strings_wf()
                        &&& crate::response::spec_render_response(resp.spec_model()).len() <= 512
                        &&& ({
                            let plain = zero_pad(
                                crate::response::spec_render_response(resp.spec_model()),
                            );
                            f@ == match resp.varmap {
                                Some(vm) => match vm.spec_color() {
                                    Some(c) => spec_stamp_mark(plain, c),
                                    None => plain,
                                },
                                None => plain,
                            }
                        })
                    },
                    Err(f) => (!resp.strings_wf() || crate::response::spec_render_response(
                        resp.spec_model(),
                    ).len() > 512) && f@ == zero_pad(
                        crate::response::spec_render_response(
                            spec_code_only(ResponseCode::FatalError),
                        ),
                    ),
                },
                Err(resp) => match r {
                    Ok(_) => false,
                    Err(f) => if resp.strings_wf() && crate::response::spec_render_response(
                        resp.spec_model(),
                    ).len() <= 512 {
                        f@ == zero_pad(crate::response::spec_render_response(resp.spec_model()))
                    } else {
                        f@ == zero_pad(
                            crate::response::spec_render_response(
                                spec_code_only(ResponseCode::FatalError),
                            ),
                        )
                    },
                },
            },
    {
        match res {
            Ok(resp) => {
                let color = match &resp.varmap {
                    Some(vm) => match vm.get(AttachmentKey::Color) {
                        Some(Attachment::Color(c)) => Some(c),
                        _ => None,
                    },
                    None => None,
                };
                match resp.as_bytes() {
                    Ok(mut f) => {
                        if let Some(c) = color {
                            stamp_color(&mut f, c);
                        }
                        Ok(f)
                    },
                    Err(_) => Err(crate::response::code_only_frame(ResponseCode::FatalError)),
                }
            },
            Err(resp) => match serialize_outcome(Err(resp)) {
                Ok(f) => Ok(f),
                Err(f) => Err(f),
            },
        }
    }
}

/// Microseconds between two clock readings, zero when they disagree.
pub open spec fn spec_elapsed(done: u64, arrival: u64) -> u64 {
    if done >= arrival {
        (done - arrival) as u64
    } else {
        0
    }
}

/// Runs one inbound frame of a subscribed connection through the three
/// color-aware send stages: the color mark is stripped before parsing,
/// only `Send` may run, the reply carries the mark back, and a timing
/// event is handed out for the telemetry sink.  The two clock readings
/// are taken by the caller, at arrival and after the read.
pub fn handle_streaming_send(
    conn: &Varmap,
    req_bytes: [u8; 512],
    addr: String,
    arrival_micros: u64,
    done_micros: u64,
) -> (r: (RouteRes, Option<Message>))
    ensures
        ({
            let sp = spec_parse_request(trim_zeros(spec_unmarked(req_bytes@)));
            match sp {
                Err(e) => r.0 matches RouteRes::Unclassified(Err(f)) && f@ == zero_pad(
                    spec_render_response(spec_code_only(spec_parse_error_code(e))),
                ) && r.1 is None,
                Ok(m) => match m.method {
                    Method::Send => match conn.spec_user_name() {
                        Some(name) => exists|ts: Timestamp|
                            {
                                &&& #[trigger] ts.wf()
                                &&& r.1 == match conn.spec_task_id() {
                                    Some(tid) => Some(
                                        Message::Elapsed(
                                            tid,
                                            ts,
                                            spec_elapsed(done_micros, arrival_micros),
                                        ),
                                    ),
                                    None => None::<Message>,
                                }
                                &&& ({
                                    let mm = spec_send_ok(name, m.value, ts);
                                    if resp_strings_wf(mm) && spec_render_response(mm).len()
                                        <= 512 {
                                        r.0 matches RouteRes::Send(Ok(f)) && f@ == (
                                        if has_color_mark(req_bytes@) {
                                            spec_stamp_mark(
                                                zero_pad(spec_render_response(mm)),
                                                spec_color_of(req_bytes@),
                                            )
                                        } else {
                                            zero_pad(spec_render_response(mm))
                                        })
                                    } else {
                                        r.0 matches RouteRes::Send(Err(f)) && f@ == zero_pad(
                                            spec_render_response(
                                                spec_code_only(ResponseCode::FatalError),
                                            ),
                                        )
                                    }
                                })
                            },
                        None => r.0 matches RouteRes::Send(Err(f)) && f@ == zero_pad(
                            spec_render_response(spec_code_only(ResponseCode::InvalidName)),
                        ) && r.1 is None,
                    },
                    _ => r.0 matches RouteRes::Unclassified(Err(f)) && f@ == zero_pad(
                        spec_render_response(spec_code_only(ResponseCode::Error)),
                    ) && r.1 is None,
                },
            }
        }),
{
    let raw_req = RawRequest { bytes: req_bytes, addr };
    let starting = SendStartingBytesware;
    let ending = SendEndingBytesware;
    let req = match starting.bytesware(raw_req, arrival_micros) {
        Ok(req) => req,
        Err(resp) => {
            proof {
                let e = spec_parse_request(trim_zeros(spec_unmarked(req_bytes@)))->Err_0;
                crate::response::lemma_code_only_fits(spec_parse_error_code(e));
            }
            let out = ending.bytesware(Err(resp));
            return (RouteRes::Unclassified(out), None);
        },
    };
    match req.method {
        Method::Send => {
            let now = crate::timestamp::utc_now();
            let elapsed: u64 = if done_micros >= arrival_micros {
                done_micros - arrival_micros
            } else {
                0
            };
            let mw = SendMiddleware;
            let (second, event) = mw.middleware(&req, conn, &now, elapsed);
            proof {
                crate::response::lemma_code_only_fits(ResponseCode::InvalidName);
                crate::response::lemma_code_only_fits(ResponseCode::FatalError);
                if second is Ok {
                    let m = spec_parse_request(trim_zeros(spec_unmarked(req_bytes@)))->Ok_0;
                    let name = conn.spec_user_name()->0;
                    assert(second->Ok_0.spec_model() == spec_send_ok(name, m.value, now));
                }
            }
            let out = ending.bytesware(second);
            (RouteRes::Send(out), event)
        },
        _ => {
            let resp = crate::response::code_only_response(ResponseCode::Error);
            proof {
                crate::response::lemma_code_only_fits(ResponseCode::Error);
            }
            let out = ending.bytesware(Err(resp));
            (RouteRes::Unclassified(out), None)
        },
    }
}

} // verus!

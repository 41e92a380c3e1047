//! The inbound dispatch for one session. The reader loop outside the
//! library feeds each received line here; this parses it, runs the session
//! state machine and says what to write back, what to forward, or that the
//! session must close. A line that is not a canonical request closes the
//! session, as a protocol error does.
use vstd::prelude::*;

use crate::monitor::shares::RejectionReason;
use crate::monitor::worker_activity::WorkerActivity;
use crate::translator::downstream::downstream::{
    holds_id,
    name_authorized,
    Downstream,
    SessionState,
    TranslatedShare,
};
use crate::translator::downstream::intermediate_downstream::{
    no_request_renders,
    parse_request,
    strip_json_ws,
    strip_json_ws_line,
    render_configure_result,
    render_configure_result_line,
    render_request,
    render_response_bool,
    render_response_bool_line,
    render_subscribe_result,
    render_subscribe_result_line,
    wf_request,
    ParseError,
    Request,
};

verus! {

/// What one inbound line leads to.
pub enum LineOutcome {
    /// Write this response line back to the miner.
    Reply(String),
    /// Write the response and post the worker-activity event.
    ReplyWithEvent(String, WorkerActivity),
    /// A resolvable submit: decide it against the bridge, then answer the
    /// given request id.
    ForwardSubmit { id: u64, translated: TranslatedShare },
    /// A submit refused in the session: answer false with this reason.
    RejectSubmit { id: u64, reason: RejectionReason },
    /// Not a canonical request: close the session.
    Close,
}

/// How the session and the outcome relate to the request the line carried.
pub open spec fn outcome_for(
    pre: Downstream,
    post: Downstream,
    m: Request,
    r: LineOutcome,
    sub_entropy: u64,
    now_ms: u64,
) -> bool {
    match m {
        Request::Configure { id, mask, min_bits } => {
            &&& r matches LineOutcome::Reply(out) && out@ == render_configure_result(
                id,
                mask & crate::VERSION_ROLLING_MASK,
                min_bits,
            )
            &&& post.version_rolling_mask == Some(mask & crate::VERSION_ROLLING_MASK)
            &&& post.authorized_names == pre.authorized_names
        },
        Request::Subscribe { id, agent } => {
            &&& r matches LineOutcome::Reply(out) && out@ == render_subscribe_result(
                id,
                crate::hex::hex_of_u64(sub_entropy),
                pre.extranonce1@,
                pre.extranonce2_len as u64,
            )
            &&& post.user_agent == Some(agent)
        },
        Request::Authorize { id, user, password } => {
            let fresh = !name_authorized(pre.authorized_names@, user@);
            if fresh {
                &&& r matches LineOutcome::ReplyWithEvent(out, ev) && out@ == render_response_bool(
                    id,
                    true,
                ) && ev.worker_name@ == user@ && ev.activity is Connected
                &&& post.authorized_names@ == pre.authorized_names@.push(user)
                &&& post.state is Active
            } else {
                &&& r matches LineOutcome::Reply(out) && out@ == render_response_bool(id, false)
                &&& post.authorized_names == pre.authorized_names
                &&& post.state == pre.state
            }
        },
        Request::Submit { id, worker, job_id, extranonce2, ntime, nonce, version_bits } => {
            &&& post.submission_times@ == pre.submission_times@.push(now_ms)
            &&& (match r {
                LineOutcome::ForwardSubmit { id: rid, translated } => rid == id && holds_id(
                    pre.recent_jobs.entries(),
                    job_id,
                ) && extranonce2@.len() == pre.extranonce2_len && translated.extranonce@
                    == pre.extranonce1@ + extranonce2@,
                LineOutcome::RejectSubmit { id: rid, reason } => rid == id && (reason
                    is JobIdNotFound ==> !holds_id(pre.recent_jobs.entries(), job_id)),
                _ => false,
            })
        },
        Request::ExtranonceSubscribe { id } => {
            &&& r matches LineOutcome::Reply(out) && out@ == render_response_bool(id, true)
            &&& post.authorized_names == pre.authorized_names
            &&& post.state == pre.state
        },
    }
}

/// Handles one line from the miner. Configure replies with the granted
/// version-rolling parameters — a full requested mask comes back narrowed
/// to the exposed bits. Subscribe replies with the two subscription tuples
/// (the difficulty subscription id renders the caller-supplied entropy) and
/// the session's extranonce pair. Authorize replies true only the first
/// time a name authorizes, and fires the Connected event exactly then. A
/// submit is translated against the recent-jobs window; one whose job-id
/// field is malformed is rejected with the format reason and the session
/// stays open. The line is taken modulo whitespace between tokens; after
/// that normalisation, anything non-canonical closes the session — and
/// only lines that render from no request at all are ever refused.
pub fn handle_incoming_line(d: &mut Downstream, line: &str, sub_entropy: u64, now_ms: u64) -> (r:
    LineOutcome)
    requires
        old(d).wf(),
        old(d).extranonce1@.len() + old(d).extranonce2_len <= usize::MAX,
        old(d).extranonce2_len <= u64::MAX,
    ensures
        final(d).wf(),
        match r {
            LineOutcome::Close => *final(d) == (Downstream {
                state: SessionState::Closed,
                ..*old(d)
            }) && no_request_renders(strip_json_ws(line@)),
            LineOutcome::RejectSubmit { id, reason } => (exists|m: Request|
                strip_json_ws(line@) == render_request(m) && #[trigger] wf_request(m)
                    && outcome_for(*old(d), *final(d), m, r, sub_entropy, now_ms)) || (reason
                is InvalidJobIdFormat && no_request_renders(strip_json_ws(line@)) && *final(d)
                == *old(d)),
            _ => exists|m: Request|
                strip_json_ws(line@) == render_request(m) && #[trigger] wf_request(m)
                    && outcome_for(*old(d), *final(d), m, r, sub_entropy, now_ms),
        },
{
    let normalised = strip_json_ws_line(line);
    let m = match parse_request(normalised.as_str()) {
        Ok(m) => m,
        Err(ParseError::BadSubmitJobId { id }) => {
            return LineOutcome::RejectSubmit { id, reason: RejectionReason::InvalidJobIdFormat };
        },
        Err(ParseError::Malformed) => {
            d.close();
            return LineOutcome::Close;
        },
    };
    let ghost parsed = m;
    match m {
        Request::Configure { id, mask, min_bits } => {
            let mb32: u32 = if min_bits > 0xffff_ffff {
                0xffff_ffff
            } else {
                min_bits as u32
            };
            let granted = d.handle_configure(Some(mask), Some(mb32));
            let out = render_configure_result_line(id, granted.0, min_bits);
            let r = LineOutcome::Reply(out);
            proof {
                assert(outcome_for(*old(d), *d, parsed, r, sub_entropy, now_ms));
                assert(wf_request(parsed));
            }
            r
        },
        Request::Subscribe { id, agent } => {
            let sub_id = crate::hex::encode_u64(sub_entropy);
            let out = render_subscribe_result_line(
                id,
                sub_id.as_str(),
                &d.extranonce1,
                d.extranonce2_size() as u64,
            );
            d.handle_subscribe(agent);
            let r = LineOutcome::Reply(out);
            proof {
                assert(outcome_for(*old(d), *d, parsed, r, sub_entropy, now_ms));
            }
            r
        },
        Request::Authorize { id, user, password } => {
            let (_granted, event) = d.handle_authorize(user);
            match event {
                Some(ev) => {
                    let r = LineOutcome::ReplyWithEvent(render_response_bool_line(id, true), ev);
                    proof {
                        assert(outcome_for(*old(d), *d, parsed, r, sub_entropy, now_ms));
                    }
                    r
                },
                None => {
                    let r = LineOutcome::Reply(render_response_bool_line(id, false));
                    proof {
                        assert(outcome_for(*old(d), *d, parsed, r, sub_entropy, now_ms));
                    }
                    r
                },
            }
        },
        Request::Submit { id, worker, job_id, extranonce2, ntime, nonce, version_bits } => {
            match d.handle_submit(job_id, extranonce2, ntime, nonce, version_bits, now_ms) {
                Ok(translated) => {
                    let r = LineOutcome::ForwardSubmit { id, translated };
                    proof {
                        assert(d.submission_times@.last() == now_ms);
                        assert(outcome_for(*old(d), *d, parsed, r, sub_entropy, now_ms));
                    }
                    r
                },
                Err(reason) => {
                    let r = LineOutcome::RejectSubmit { id, reason };
                    proof {
                        assert(d.submission_times@.last() == now_ms);
                        assert(outcome_for(*old(d), *d, parsed, r, sub_entropy, now_ms));
                    }
                    r
                },
            }
        },
        Request::ExtranonceSubscribe { id } => {
            d.handle_extranonce_subscribe();
            let r = LineOutcome::Reply(render_response_bool_line(id, true));
            proof {
                assert(outcome_for(*old(d), *d, parsed, r, sub_entropy, now_ms));
            }
            r
        },
    }
}

} // verus!

//! Admission of one new miner connection. The accept loop outside the
//! library hands every fresh socket here; this decides the starting
//! difficulty, asks the bridge for a channel and builds the session. On a
//! refusal the caller closes the socket and no channel leaks.
use vstd::prelude::*;

use crate::translator::downstream::diff_management::{
    initial_difficulty,
    spec_clamp,
    spec_initial_difficulty,
    SHARE_PER_MIN,
};
use crate::translator::downstream::downstream::Downstream;
use crate::translator::proxy::bridge::{Bridge, BridgeError, uses_id};

verus! {

/// Admits one connection: computes the starting difficulty from the
/// declared hashrate, held inside the channel's difficulty bounds,
/// registers the implied hashrate contribution with the bridge and builds
/// the session on the opened channel. The session starts fresh, on the
/// channel's extranonce and the bridge's cached job. Failure is exactly the
/// bridge's refusal: not ready, no index free, or an overflowing
/// contribution.
pub fn open_downstream(bridge: &mut Bridge, declared_hashrate: u128, d_min: u64, d_max: u64) -> (r:
    Result<Downstream, BridgeError>)
    requires
        old(bridge).wf(),
        declared_hashrate <= 1_000_000_000_000_000_000_000_000_000u128,
        1 <= d_min <= d_max,
    ensures
        final(bridge).wf(),
        match r {
            Ok(d) => {
                &&& old(bridge).is_ready()
                &&& d.current_difficulty == spec_clamp(
                    spec_initial_difficulty(declared_hashrate as nat, SHARE_PER_MIN as nat),
                    d_min as nat,
                    d_max as nat,
                )
                &&& d_min <= d.current_difficulty <= d_max
                &&& !uses_id(old(bridge).channels(), d.channel_id)
                &&& d.channel_id < old(bridge).max_channels_spec()
                &&& d.extranonce1@ == old(bridge).extranonce_for(d.channel_id)
                &&& d.extranonce2_len == old(bridge).granted_ex2_len()
                &&& d.state is New
                &&& d.authorized_names@.len() == 0
                &&& d.first_job == old(bridge).last_notify_spec()
                &&& d.recent_jobs.entries().len() == 0
                &&& final(bridge).channels().len() == old(bridge).channels().len() + 1
                &&& ({
                    let advertised = spec_advertised(
                        declared_hashrate as nat,
                        d_min as nat,
                        d_max as nat,
                    );
                    &&& final(bridge).channels().last().hashrate_contribution == advertised
                    &&& final(bridge).aggregate() == old(bridge).aggregate() + advertised
                })
            },
            Err(e) => {
                &&& *final(bridge) == *old(bridge)
                &&& (e is UpstreamNotReady <==> !old(bridge).is_ready())
                &&& (e is NoExtranonceSpace ==> old(bridge).is_ready() && (forall|id: u32|
                    id < old(bridge).max_channels_spec() ==> uses_id(old(bridge).channels(), id)))
                &&& (e is HashrateRejected ==> old(bridge).is_ready() && old(bridge).aggregate()
                    + spec_advertised(declared_hashrate as nat, d_min as nat, d_max as nat)
                    > u128::MAX)
            },
        },
{
    let raw_d0 = initial_difficulty(declared_hashrate, SHARE_PER_MIN);
    let d0: u64 = if raw_d0 < d_min {
        d_min
    } else if raw_d0 > d_max {
        d_max
    } else {
        raw_d0
    };
    // Advertise upstream the hashrate the starting difficulty stands for,
    // as the difficulty formula read backwards.
    let scaled: u128 = (d0 as u128) * (SHARE_PER_MIN as u128) * 0x1_0000_0000;
    let contribution: u128 = scaled / 60;
    proof {
        let dd = d0 as int;
        assert(dd * (SHARE_PER_MIN as int) * 0x1_0000_0000 <= 0xffff_ffff_ffff_ffff * (
        SHARE_PER_MIN as int) * 0x1_0000_0000) by (nonlinear_arith)
            requires
                0 <= dd <= 0xffff_ffff_ffff_ffff,
        ;
    }
    let opened = match bridge.on_new_sv1_connection(contribution) {
        Ok(o) => o,
        Err(e) => {
            return Err(e);
        },
    };
    Ok(
        Downstream::new_downstream(
            opened.channel_id,
            opened.extranonce,
            opened.extranonce2_len,
            d0,
            opened.last_notify,
        ),
    )
}

/// The hashrate contribution a session admitted with this declaration
/// advertises upstream: the bounded starting difficulty put back through
/// the difficulty formula.
pub open spec fn spec_advertised(declared_hashrate: nat, d_min: nat, d_max: nat) -> int {
    spec_clamp(spec_initial_difficulty(declared_hashrate, SHARE_PER_MIN as nat), d_min, d_max)
        * SHARE_PER_MIN * 0x1_0000_0000 / 60
}

} // verus!

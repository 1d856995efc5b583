//! The URB driver against the URB pump: what a whole session comes to.

use vstd::prelude::*;

use crate::desktop::urb_driver::{
    body_count, bulk_in_urb, default_script, final_unlink, script_head, submit_of, Driver,
    DriverError, DriverStats, Phase, UrbModel,
};
use crate::desktop::urb_pump::{
    count_submit, envelope_outcome, first_endpoint, lemma_unlink_is_acknowledged, out_body,
    ret_submit, ret_unlink, submit_outcome, target_address, FakeDevice, PumpError, PumpStats,
};
use crate::protocol::envelope::{envelope_bytes, lemma_envelope_round_trip, parse_outcome, Channel};
use crate::protocol::usbip::{
    lemma_cmd_submit_round_trip, lemma_cmd_unlink_round_trip, lemma_ret_submit_round_trip,
    lemma_ret_unlink_round_trip, lemma_usbip_frame_round_trip, usbip_frame_bytes, CmdSubmit,
    RetSubmit, URB_DIR_IN, URB_DIR_OUT,
};

verus! {

/// One round trip: the driver issues what comes next, the pump answers, the
/// driver accepts. The states behind it, or `None` if anything goes wrong.
pub open spec fn exchange(
    d: Driver,
    script: Seq<UrbModel>,
    device: FakeDevice,
    ps: PumpStats,
) -> Option<(Driver, PumpStats)> {
    match d.request(script) {
        Err(_) => None,
        Ok(sent) => match parse_outcome(sent) {
            Ok(Some((channel, payload, _))) => match envelope_outcome(
                d.import_id,
                device,
                channel,
                payload,
                ps,
            ) {
                (_, Err(_)) => None,
                (counted, Ok(back)) => match parse_outcome(back) {
                    Ok(Some((channel, payload, _))) => match d.issued(script.len()).accepts(
                        script,
                        channel,
                        payload,
                    ).1 {
                        Err(_) => None,
                        Ok(next) => Some((next, counted)),
                    },
                    _ => None,
                },
            },
            _ => None,
        },
    }
}

/// How many round trips a driver still has to make.
pub open spec fn trips_left(d: Driver, len: nat) -> int {
    match d.phase {
        Phase::Ready(k) => len - k + 1,
        _ => 0,
    }
}

/// A whole session: round trips until the driver is done. The final states,
/// or `None` if anything goes wrong on the way.
pub open spec fn session(
    d: Driver,
    script: Seq<UrbModel>,
    device: FakeDevice,
    ps: PumpStats,
) -> Option<(Driver, PumpStats)>
    decreases trips_left(d, script.len()),
{
    if d.phase is Done {
        Some((d, ps))
    } else {
        match exchange(d, script, device, ps) {
            None => None,
            Some((next, counted)) => if 0 <= trips_left(next, script.len()) < trips_left(
                d,
                script.len(),
            ) {
                session(next, script, device, counted)
            } else {
                None
            },
        }
    }
}

/// The number of bytes that a URB carries to the device.
pub open spec fn carried(u: UrbModel) -> nat {
    if u.direction == URB_DIR_OUT {
        u.transfer_buffer_length as nat
    } else {
        0
    }
}

/// Whether the device answers a URB as the script expects.
pub open spec fn answered_as_expected(u: UrbModel, device: FakeDevice) -> bool {
    let o = submit_outcome(device, submit_of(u), carried(u));
    &&& u.direction == URB_DIR_OUT ==> u.out_body.len() == u.transfer_buffer_length
    &&& u.out_body.len() <= 1000
    &&& o.status == u.expected_status
    &&& o.actual_length == u.expected_actual_length
    &&& o.data.len() <= 1000
    &&& u.direction == URB_DIR_IN ==> o.data.len() == o.actual_length
}

/// What the pump makes of a submit whose outcome is small and countable.
proof fn lemma_pump_answers(
    import_id: u32,
    device: FakeDevice,
    ps: PumpStats,
    cmd: CmdSubmit,
    body: Seq<u8>,
)
    requires
        cmd.direction == URB_DIR_OUT ==> body.len() == cmd.transfer_buffer_length,
        body.len() <= 1000,
        ({
            let taken = if cmd.direction == URB_DIR_OUT {
                body.len()
            } else {
                0
            };
            let o = submit_outcome(device, cmd, taken);
            o.data.len() <= 1000 && count_submit(ps, cmd, o) is Some
        }),
    ensures
        ({
            let taken = if cmd.direction == URB_DIR_OUT {
                body.len()
            } else {
                0
            };
            let o = submit_outcome(device, cmd, taken);
            let raw = ret_submit(cmd, o).bytes() + o.data;
            envelope_outcome(
                import_id,
                device,
                Channel::Usbip,
                usbip_frame_bytes(import_id, cmd.bytes() + body),
                ps,
            ) == (
                count_submit(ps, cmd, o)->Some_0,
                Ok::<Seq<u8>, PumpError>(
                    envelope_bytes(Channel::Usbip, usbip_frame_bytes(import_id, raw)),
                ),
            )
        }),
{
    let taken = if cmd.direction == URB_DIR_OUT {
        body.len()
    } else {
        0
    };
    let o = submit_outcome(device, cmd, taken);
    let raw_in = cmd.bytes() + body;
    lemma_cmd_submit_round_trip(cmd, body);
    assert(out_body(cmd, raw_in) is Ok);
    assert(out_body(cmd, raw_in)->Ok_0.len() == taken);
    lemma_ret_submit_round_trip(ret_submit(cmd, o), o.data);
    lemma_usbip_frame_round_trip(import_id, raw_in, raw_in);
}

/// What the driver makes of an answer that is as expected.
#[verifier::spinoff_prover]
#[verifier::rlimit(40)]
proof fn lemma_driver_accepts(
    d: Driver,
    script: Seq<UrbModel>,
    k: usize,
    ret: RetSubmit,
    data: Seq<u8>,
)
    requires
        d.phase == Phase::AwaitSubmit(k),
        k < script.len(),
        ret.status == script[k as int].expected_status,
        ret.actual_length == script[k as int].expected_actual_length,
        script[k as int].direction == URB_DIR_IN ==> data.len() == ret.actual_length,
        data.len() <= 1000,
    ensures
        d.accepts(
            script,
            Channel::Usbip,
            usbip_frame_bytes(d.import_id, ret.bytes() + data),
        ).1 == Ok::<Driver, DriverError>(
            d.answered(
                if script[k as int].direction == URB_DIR_IN {
                    ret.actual_length as u64
                } else {
                    0
                },
            ),
        ),
{
    let raw = ret.bytes() + data;
    lemma_ret_submit_round_trip(ret, data);
    lemma_usbip_frame_round_trip(d.import_id, raw, raw);
    assert(body_count(raw) == data.len());
}

/// A round trip put together from its four steps.
proof fn lemma_exchange_steps(
    d: Driver,
    script: Seq<UrbModel>,
    device: FakeDevice,
    ps: PumpStats,
    payload_in: Seq<u8>,
    counted: PumpStats,
    payload_back: Seq<u8>,
    next: Driver,
)
    requires
        payload_in.len() <= 2000,
        payload_back.len() <= 2000,
        d.request(script) == Ok::<Seq<u8>, DriverError>(envelope_bytes(Channel::Usbip, payload_in)),
        envelope_outcome(d.import_id, device, Channel::Usbip, payload_in, ps) == (
            counted,
            Ok::<Seq<u8>, PumpError>(envelope_bytes(Channel::Usbip, payload_back)),
        ),
        d.issued(script.len()).accepts(script, Channel::Usbip, payload_back).1 == Ok::<
            Driver,
            DriverError,
        >(next),
    ensures
        exchange(d, script, device, ps) == Some((next, counted)),
{
    let sent = envelope_bytes(Channel::Usbip, payload_in);
    let back = envelope_bytes(Channel::Usbip, payload_back);
    lemma_envelope_round_trip(Channel::Usbip, payload_in, Seq::empty());
    lemma_envelope_round_trip(Channel::Usbip, payload_back, Seq::empty());
    assert(sent + Seq::<u8>::empty() =~= sent);
    assert(back + Seq::<u8>::empty() =~= back);
}

/// A round trip for a URB that the device answers as expected succeeds and
/// moves on to the next one.
#[verifier::spinoff_prover]
#[verifier::rlimit(60)]
proof fn lemma_exchange_submit(
    d: Driver,
    script: Seq<UrbModel>,
    device: FakeDevice,
    ps: PumpStats,
    k: usize,
)
    requires
        d.phase == Phase::Ready(k),
        k < script.len(),
        answered_as_expected(script[k as int], device),
        ({
            let u = script[k as int];
            count_submit(ps, submit_of(u), submit_outcome(device, submit_of(u), carried(u))) is Some
        }),
    ensures
        ({
            let u = script[k as int];
            let o = submit_outcome(device, submit_of(u), carried(u));
            exchange(d, script, device, ps) == Some(
                (
                    d.issued(script.len()).answered(
                        if u.direction == URB_DIR_IN {
                            o.actual_length as u64
                        } else {
                            0
                        },
                    ),
                    count_submit(ps, submit_of(u), o)->Some_0,
                ),
            )
        }),
{
    let u = script[k as int];
    let cmd = submit_of(u);
    let id = d.import_id;
    let o = submit_outcome(device, cmd, carried(u));
    let payload_in = usbip_frame_bytes(id, cmd.bytes() + u.out_body);
    lemma_cmd_submit_round_trip(cmd, u.out_body);
    lemma_pump_answers(id, device, ps, cmd, u.out_body);
    let ret = ret_submit(cmd, o);
    let payload = usbip_frame_bytes(id, ret.bytes() + o.data);
    lemma_ret_submit_round_trip(ret, o.data);
    let out = d.issued(script.len());
    lemma_driver_accepts(out, script, k, ret, o.data);
    lemma_exchange_steps(
        d,
        script,
        device,
        ps,
        payload_in,
        count_submit(ps, cmd, o)->Some_0,
        payload,
        out.answered(
            if u.direction == URB_DIR_IN {
                o.actual_length as u64
            } else {
                0
            },
        ),
    );
}

/// The round trip of the unlink ends the session.
proof fn lemma_exchange_unlink(
    d: Driver,
    script: Seq<UrbModel>,
    device: FakeDevice,
    ps: PumpStats,
)
    requires
        d.phase is Ready,
        d.phase->Ready_0 >= script.len(),
        ps.unlinks_seen < u32::MAX,
    ensures
        exchange(d, script, device, ps) == Some(
            (
                d.issued(script.len()).finished(),
                PumpStats { unlinks_seen: (ps.unlinks_seen + 1) as u32, ..ps },
            ),
        ),
{
    let id = d.import_id;
    let raw_in = final_unlink().bytes();
    let payload_in = usbip_frame_bytes(id, raw_in);
    lemma_cmd_unlink_round_trip(final_unlink(), Seq::empty());
    assert(raw_in + Seq::<u8>::empty() =~= raw_in);
    lemma_envelope_round_trip(Channel::Usbip, payload_in, Seq::empty());
    let sent = envelope_bytes(Channel::Usbip, payload_in);
    assert(sent + Seq::<u8>::empty() =~= sent);
    assert(d.request(script)->Ok_0 == sent);
    lemma_usbip_frame_round_trip(id, raw_in, payload_in);
    lemma_unlink_is_acknowledged(id, device, final_unlink(), ps);
    let ret = ret_unlink(final_unlink(), 0);
    let raw = ret.bytes();
    lemma_ret_unlink_round_trip(ret, Seq::empty());
    assert(raw + Seq::<u8>::empty() =~= raw);
    lemma_usbip_frame_round_trip(id, raw, usbip_frame_bytes(id, raw));
    let back = envelope_bytes(Channel::Usbip, usbip_frame_bytes(id, raw));
    lemma_envelope_round_trip(Channel::Usbip, usbip_frame_bytes(id, raw), Seq::empty());
    assert(back + Seq::<u8>::empty() =~= back);
}

/// The bytes that the first `k` URBs of the default script return.
pub open spec fn bytes_after(k: nat) -> nat {
    (if k == 0 {
        0
    } else if k == 1 {
        18
    } else if k == 2 {
        27
    } else if k <= 4 {
        59
    } else if k <= 6 {
        123
    } else {
        155 + 64 * (k - 7)
    }) as nat
}

/// The driver after the first `k` URBs of the default script.
pub open spec fn driver_after(import_id: u32, k: nat) -> Driver {
    Driver {
        import_id,
        phase: Phase::Ready(k as usize),
        stats: DriverStats {
            urbs_issued: k as u32,
            urbs_ok: k as u32,
            unlinks_issued: 0,
            unlinks_ok: 0,
            bytes_returned: bytes_after(k) as u64,
        },
    }
}

/// The pump's counters after the first `k` URBs of the default script.
pub open spec fn pump_after(k: nat) -> PumpStats {
    PumpStats {
        submits_seen: k as u32,
        submits_ok: k as u32,
        control_in_bytes: (if k <= 4 {
            bytes_after(k)
        } else {
            59
        }) as u32,
        bulk_in_bytes: (if k <= 4 {
            0
        } else {
            bytes_after(k) - 59
        }) as u32,
        bulk_out_bytes: (if k < 6 {
            0int
        } else {
            64
        }) as u32,
        unlinks_seen: 0,
        unsupported: 0,
    }
}

/// The mass-storage device answers the URB at position `k` of the default
/// script as expected.
proof fn lemma_default_urb(device: FakeDevice, vendor: u16, product: u16, n: nat, k: nat)
    requires
        device.is_mass_storage(vendor, product),
        k < 7 + n,
        96 + 64 * n <= u32::MAX,
    ensures
        ({
            let u = default_script(n)[k as int];
            let o = submit_outcome(device, submit_of(u), carried(u));
            &&& answered_as_expected(u, device)
            &&& count_submit(pump_after(k), submit_of(u), o) == Some(pump_after(k + 1))
            &&& bytes_after(k + 1) == bytes_after(k) + (if u.direction == URB_DIR_IN {
                o.actual_length as nat
            } else {
                0
            })
        }),
{
    let u = default_script(n)[k as int];
    let cmd = submit_of(u);
    let o = submit_outcome(device, cmd, carried(u));
    if k < 7 {
        assert(u == script_head()[k as int]);
    } else {
        let i = k - 7;
        assert(u == bulk_in_urb(
            "extra-bulk-IN-"@ + crate::text::dec((100 + i) as nat),
            (100 + i) as u32,
            64,
        ));
    }
    let eps = device.endpoints@;
    assert(eps.skip(1)[0] == eps[1]);
    reveal_with_fuel(first_endpoint, 3);
    if u.ep == 1 {
        assert(target_address(cmd) == 0x81);
        assert(first_endpoint(eps, 0x81) == Some(eps[0]));
    }
    if u.ep == 2 {
        assert(target_address(cmd) == 0x02);
        assert(first_endpoint(eps, 0x02) == Some(eps[1]));
    }
    assert(device.device_descriptor@.len() == 18);
    assert(device.config_descriptor@.len() == 32);
}

/// From any point of the default script the session runs to its end.
proof fn lemma_session_from(
    import_id: u32,
    device: FakeDevice,
    vendor: u16,
    product: u16,
    n: nat,
    k: nat,
)
    requires
        device.is_mass_storage(vendor, product),
        k <= 7 + n,
        96 + 64 * n <= u32::MAX,
    ensures
        session(driver_after(import_id, k), default_script(n), device, pump_after(k)) == Some(
            (
                Driver {
                    phase: Phase::Done,
                    stats: DriverStats {
                        unlinks_issued: 1,
                        unlinks_ok: 1,
                        ..driver_after(import_id, 7 + n).stats
                    },
                    ..driver_after(import_id, 7 + n)
                },
                PumpStats { unlinks_seen: 1, ..pump_after(7 + n) },
            ),
        ),
    decreases 7 + n - k,
{
    let d = driver_after(import_id, k);
    let script = default_script(n);
    let ps = pump_after(k);
    assert(script.len() == 7 + n);
    if k < 7 + n {
        lemma_default_urb(device, vendor, product, n, k);
        lemma_exchange_submit(d, script, device, ps, k as usize);
        lemma_session_from(import_id, device, vendor, product, n, k + 1);
        assert(exchange(d, script, device, ps) == Some(
            (driver_after(import_id, k + 1), pump_after(k + 1)),
        ));
    } else {
        lemma_exchange_unlink(d, script, device, ps);
        let next = d.issued(script.len()).finished();
        let counted = PumpStats { unlinks_seen: 1, ..ps };
        assert(exchange(d, script, device, ps) == Some((next, counted)));
        assert(session(next, script, device, counted) == Some((next, counted)));
    }
}

/// The default script, driven against the mass-storage pump, succeeds for
/// every import and every device id: each of its URBs is answered as expected,
/// the unlink is acknowledged, and both sides have counted the same transfers.
/// The number of extra URBs is bounded by what the pump's 32-bit byte counter
/// can hold.
pub proof fn lemma_default_session_succeeds(
    import_id: u32,
    device: FakeDevice,
    vendor: u16,
    product: u16,
    n: nat,
)
    requires
        device.is_mass_storage(vendor, product),
        96 + 64 * n <= u32::MAX,
    ensures
        session(Driver::initial(import_id), default_script(n), device, PumpStats::zero()) == Some(
            (
                Driver {
                    import_id,
                    phase: Phase::Done,
                    stats: DriverStats {
                        urbs_issued: (7 + n) as u32,
                        urbs_ok: (7 + n) as u32,
                        unlinks_issued: 1,
                        unlinks_ok: 1,
                        bytes_returned: (155 + 64 * n) as u64,
                    },
                },
                PumpStats {
                    submits_seen: (7 + n) as u32,
                    submits_ok: (7 + n) as u32,
                    control_in_bytes: 59,
                    bulk_in_bytes: (96 + 64 * n) as u32,
                    bulk_out_bytes: 64,
                    unlinks_seen: 1,
                    unsupported: 0,
                },
            ),
        ),
{
    lemma_session_from(import_id, device, vendor, product, n, 0);
    assert(driver_after(import_id, 0) == Driver::initial(import_id));
    assert(pump_after(0) == PumpStats::zero());
}

} // verus!

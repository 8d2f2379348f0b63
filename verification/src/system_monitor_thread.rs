//! The system monitor's stream: packets of eighteen bytes, each behind the
//! header `AA 55`.

use vstd::prelude::*;
use crate::framer::{find_header, header_start, lemma_find_header_some};

verus! {

/// The length of a packet of the system monitor.
pub const MONITOR_PACKET_LEN: usize = 18;

/// What a pass over the monitor's buffer recovers and leaves.
pub struct MonitorPass {
    pub packets: Seq<Seq<u8>>,
    pub rest: Seq<u8>,
}

/// A pass over the monitor's buffer. Everything before a header is dropped,
/// and eighteen bytes from a header on are a packet. Fewer than eighteen wait
/// for more. A buffer of two or more bytes without a header keeps a last byte
/// `AA` and nothing else; a single byte stays.
pub open spec fn monitor_pass(s: Seq<u8>) -> MonitorPass
    decreases s.len(),
    via monitor_pass_decreases
{
    match find_header(s, 0) {
        Some(p) => {
            let b = s.skip(p);
            if b.len() >= MONITOR_PACKET_LEN {
                let later = monitor_pass(b.skip(18));
                MonitorPass { packets: seq![b.take(18)] + later.packets, rest: later.rest }
            } else {
                MonitorPass { packets: Seq::empty(), rest: b }
            }
        },
        None => MonitorPass {
            packets: Seq::empty(),
            rest: if s.len() > 1 {
                header_start(s)
            } else {
                s
            },
        },
    }
}

#[via_fn]
proof fn monitor_pass_decreases(s: Seq<u8>) {
    if find_header(s, 0) is Some {
        lemma_find_header_some(s, 0);
    }
}

/// The views of packets.
pub open spec fn packet_views(packets: Seq<Vec<u8>>) -> Seq<Seq<u8>> {
    packets.map_values(|p: Vec<u8>| p@)
}

fn first_header(buf: &Vec<u8>) -> (r: Option<usize>)
    ensures
        match find_header(buf@, 0) {
            Some(p) => r == Some(p as usize) && 0 <= p && p + 1 < buf.len(),
            None => r is None,
        },
{
    let mut i: usize = 0;
    while i < buf.len() && i + 1 < buf.len()
        invariant
            find_header(buf@, 0) == find_header(buf@, i as int),
        decreases buf.len() - i,
    {
        if buf[i] == 0xAA && buf[i + 1] == 0x55 {
            proof {
                lemma_find_header_some(buf@, 0);
            }
            return Some(i);
        }
        i += 1;
    }
    None
}

/// Recovers the packets that the monitor's buffer holds, in the order of
/// their arrival; the buffer keeps what may belong to a later packet.
pub fn process_system_monitor_buffer(message_buffer: &mut Vec<u8>) -> (packets: Vec<Vec<u8>>)
    ensures
        packet_views(packets@) == monitor_pass(old(message_buffer)@).packets,
        final(message_buffer)@ == monitor_pass(old(message_buffer)@).rest,
{
    let mut packets: Vec<Vec<u8>> = Vec::new();
    assert(packet_views(packets@) =~= Seq::<Seq<u8>>::empty());
    assert(packet_views(packets@) + monitor_pass(message_buffer@).packets =~= monitor_pass(
        message_buffer@,
    ).packets);
    loop
        invariant
            monitor_pass(old(message_buffer)@).packets == packet_views(packets@) + monitor_pass(
                message_buffer@,
            ).packets,
            monitor_pass(old(message_buffer)@).rest == monitor_pass(message_buffer@).rest,
        decreases message_buffer@.len(),
    {
        let ghost before = message_buffer@;
        match first_header(message_buffer) {
            Some(pos) => {
                let mut aligned = message_buffer.split_off(pos);
                assert(aligned@ =~= before.skip(pos as int));
                if aligned.len() >= MONITOR_PACKET_LEN {
                    let rest = aligned.split_off(MONITOR_PACKET_LEN);
                    proof {
                        let b = before.skip(pos as int);
                        assert(aligned@ =~= b.take(18));
                        assert(rest@ =~= b.skip(18));
                        assert(packet_views(packets@.push(aligned)) =~= packet_views(packets@).push(
                            aligned@,
                        ));
                        assert(packet_views(packets@).push(aligned@) + monitor_pass(rest@).packets
                            =~= packet_views(packets@) + (seq![aligned@] + monitor_pass(
                            rest@,
                        ).packets));
                    }
                    packets.push(aligned);
                    *message_buffer = rest;
                } else {
                    *message_buffer = aligned;
                    proof {
                        assert(packet_views(packets@) + monitor_pass(before).packets
                            =~= packet_views(packets@));
                    }
                    return packets;
                }
            },
            None => {
                let n = message_buffer.len();
                if n > 1 {
                    if message_buffer[n - 1] == 0xAA {
                        let last = message_buffer.split_off(n - 1);
                        assert(last@ =~= header_start(before));
                        *message_buffer = last;
                    } else {
                        message_buffer.clear();
                    }
                }
                proof {
                    assert(packet_views(packets@) + monitor_pass(before).packets =~= packet_views(
                        packets@,
                    ));
                }
                return packets;
            },
        }
    }
}

} // verus!

//! The panel's start-up sequence.

use crate::bus;
use crate::bus::FmcBus;
use crate::ops::Op;
use crate::queue::OpQueue;
use vstd::prelude::*;

verus! {

/// A command with its parameter bytes.
#[verifier::ext_equal]
pub struct Message {
    /// The command.
    pub code: u8,
    /// The bytes that follow it.
    pub params: Seq<u8>,
}

/// The operations that send `message`.
pub open spec fn message_ops(message: Message) -> Seq<Op> {
    bus::cmd_ops(message.code) + bus::slice_ops(message.params)
}

/// The operations that send `messages`, in order.
pub open spec fn messages_ops(messages: Seq<Message>) -> Seq<Op>
    decreases messages.len(),
{
    if messages.len() == 0 {
        Seq::empty()
    } else {
        messages_ops(messages.drop_last()) + message_ops(messages.last())
    }
}

/// What the panel is told up to and with "sleep out". The gamma curves and the
/// orientation (`MADCTL` 0x7A: landscape, BGR) belong to this very panel.
pub open spec fn setup_messages() -> Seq<Message> {
    seq![
        // Positive gamma
        Message {
            code: 0xE0,
            params: seq![
                0x00, 0x10, 0x14, 0x01, 0x0E, 0x04, 0x33, 0x56, 0x48, 0x03, 0x0C, 0x0B, 0x2B, 0x34,
                0x0F,
            ],
        },
        // Negative gamma
        Message {
            code: 0xE1,
            params: seq![
                0x00, 0x12, 0x18, 0x05, 0x12, 0x06, 0x40, 0x34, 0x57, 0x06, 0x10, 0x0C, 0x3B, 0x3F,
                0x0F,
            ],
        },
        // Power 1
        Message { code: 0xC0, params: seq![0x0F, 0x0C] },
        // Power 2
        Message { code: 0xC1, params: seq![0x41] },
        // VCOM
        Message { code: 0xC5, params: seq![0x00, 0x25, 0x80] },
        // MADCTL
        Message { code: 0x36, params: seq![0x7A] },
        // COLMOD: RGB565
        Message { code: 0x3A, params: seq![0x55] },
        // Interface mode
        Message { code: 0xB0, params: seq![0x00] },
        // Frame rate
        Message { code: 0xB1, params: seq![0xA0] },
        // Inversion control
        Message { code: 0xB4, params: seq![0x02] },
        // Display function
        Message { code: 0xB6, params: seq![0x02, 0x22] },
        // Inversion on
        Message { code: 0x21, params: seq![] },
        // Sleep out
        Message { code: 0x11, params: seq![] },
    ]
}

/// What the panel is told once it is awake.
pub open spec fn wake_messages() -> Seq<Message> {
    seq![
        // Tearing-effect line on
        Message { code: 0x35, params: seq![0x00] },
        // Display on
        Message { code: 0x29, params: seq![] },
    ]
}

/// The operations of the start-up sequence: the settings, `wake_cycles` processor
/// cycles for the panel to wake up, and the rest.
pub open spec fn init_ops(wake_cycles: u32) -> Seq<Op> {
    messages_ops(setup_messages()) + seq![Op::Delay { cycles: wake_cycles }] + messages_ops(
        wake_messages(),
    )
}

/// One more message was sent after `done` to a queue that held `start` at first.
proof fn sent(start: Seq<Op>, done: Seq<Message>, message: Message) -> (messages: Seq<Message>)
    ensures
        messages == done.push(message),
        start + messages_ops(done) + message_ops(message) == start + messages_ops(messages),
{
    let messages = done.push(message);
    assert(messages.drop_last() =~= done);
    assert(start + messages_ops(done) + message_ops(message) =~= start + messages_ops(messages));
    messages
}

/// Sends a command with its parameters.
fn send(bus: &FmcBus, ops: &mut OpQueue, code: u8, params: &[u8])
    ensures
        final(ops)@ == old(ops)@.followed_by(message_ops(Message { code, params: params@ })),
{
    bus.cmd(ops, code);
    bus.data_slice(ops, params);
    assert(ops@.ops =~= old(ops)@.ops + message_ops(Message { code, params: params@ }));
}

/// Sends the start-up sequence, with 120 ms of `cycles_per_ms` processor cycles
/// each for the panel to wake up.
pub fn run_init_sequence(bus: &FmcBus, ops: &mut OpQueue, cycles_per_ms: u32)
    requires
        120 * cycles_per_ms <= u32::MAX,
    ensures
        final(ops)@ == old(ops)@.followed_by(init_ops((120 * cycles_per_ms) as u32)),
{
    send_init_sequence(bus, ops, 120 * cycles_per_ms);
}

/// Sends the start-up sequence, with `wake_cycles` processor cycles for the panel
/// to wake up.
pub fn send_init_sequence(bus: &FmcBus, ops: &mut OpQueue, wake_cycles: u32)
    ensures
        final(ops)@ == old(ops)@.followed_by(init_ops(wake_cycles)),
{
    let ghost start = old(ops)@.ops;
    let ghost mut done = Seq::<Message>::empty();
    assert(start + messages_ops(done) =~= start);
    // Positive gamma
    let params: [u8; 15] = [0x00, 0x10, 0x14, 0x01, 0x0E, 0x04, 0x33, 0x56, 0x48, 0x03, 0x0C, 0x0B, 0x2B, 0x34, 0x0F];
    send(bus, ops, 0xE0, &params);
    proof {
        done = sent(start, done, Message { code: 0xE0, params: params@ });
    }
    // Negative gamma
    let params: [u8; 15] = [0x00, 0x12, 0x18, 0x05, 0x12, 0x06, 0x40, 0x34, 0x57, 0x06, 0x10, 0x0C, 0x3B, 0x3F, 0x0F];
    send(bus, ops, 0xE1, &params);
    proof {
        done = sent(start, done, Message { code: 0xE1, params: params@ });
    }
    // Power 1
    let params: [u8; 2] = [0x0F, 0x0C];
    send(bus, ops, 0xC0, &params);
    proof {
        done = sent(start, done, Message { code: 0xC0, params: params@ });
    }
    // Power 2
    let params: [u8; 1] = [0x41];
    send(bus, ops, 0xC1, &params);
    proof {
        done = sent(start, done, Message { code: 0xC1, params: params@ });
    }
    // VCOM
    let params: [u8; 3] = [0x00, 0x25, 0x80];
    send(bus, ops, 0xC5, &params);
    proof {
        done = sent(start, done, Message { code: 0xC5, params: params@ });
    }
    // MADCTL: landscape 480x320, BGR
    let params: [u8; 1] = [0x7A];
    send(bus, ops, 0x36, &params);
    proof {
        done = sent(start, done, Message { code: 0x36, params: params@ });
    }
    // COLMOD: RGB565
    let params: [u8; 1] = [0x55];
    send(bus, ops, 0x3A, &params);
    proof {
        done = sent(start, done, Message { code: 0x3A, params: params@ });
    }
    // Interface mode
    let params: [u8; 1] = [0x00];
    send(bus, ops, 0xB0, &params);
    proof {
        done = sent(start, done, Message { code: 0xB0, params: params@ });
    }
    // Frame rate
    let params: [u8; 1] = [0xA0];
    send(bus, ops, 0xB1, &params);
    proof {
        done = sent(start, done, Message { code: 0xB1, params: params@ });
    }
    // Inversion control
    let params: [u8; 1] = [0x02];
    send(bus, ops, 0xB4, &params);
    proof {
        done = sent(start, done, Message { code: 0xB4, params: params@ });
    }
    // Display function
    let params: [u8; 2] = [0x02, 0x22];
    send(bus, ops, 0xB6, &params);
    proof {
        done = sent(start, done, Message { code: 0xB6, params: params@ });
    }
    // Inversion on, which this IPS module needs
    let params: [u8; 0] = [];
    send(bus, ops, 0x21, &params);
    proof {
        done = sent(start, done, Message { code: 0x21, params: params@ });
    }
    // Sleep out
    let params: [u8; 0] = [];
    send(bus, ops, 0x11, &params);
    proof {
        done = sent(start, done, Message { code: 0x11, params: params@ });
    }
    assert(done =~~= setup_messages());
    ops.push(Op::Delay { cycles: wake_cycles });

    let ghost start = ops@.ops;
    let ghost mut done = Seq::<Message>::empty();
    assert(start + messages_ops(done) =~= start);
    // Tearing-effect line on
    let params: [u8; 1] = [0x00];
    send(bus, ops, 0x35, &params);
    proof {
        done = sent(start, done, Message { code: 0x35, params: params@ });
    }
    // Display on
    let params: [u8; 0] = [];
    send(bus, ops, 0x29, &params);
    proof {
        done = sent(start, done, Message { code: 0x29, params: params@ });
    }
    assert(done =~~= wake_messages());
    assert(ops@.ops =~= old(ops)@.ops + init_ops(wake_cycles));
}

} // verus!

//! The sending side of scene synchronisation: sequence numbering, frames and
//! batching, and the pacing of reconnection attempts.
//!
//! The sender decides what goes on the wire; the caller owns the transport
//! and writes each returned frame, in order, to it.

use vstd::prelude::*;
use crate::messages::{
    ComponentTypeId, FrameModel, MessageFrame, MessageModel, SceneMessage, frames_model,
};
use crate::transport::TransportConfig;

verus! {

/// Whether a connection attempt is due: never while connected; otherwise at
/// once if none was made yet, else once `interval` milliseconds have passed
/// since the last attempt (an earlier clock reading counts as no time passed).
pub open spec fn reconnect_due(connected: bool, last_attempt: Option<u64>, now: u64, interval: u64) -> bool {
    if connected {
        false
    } else {
        match last_attempt {
            None => true,
            Some(last) => (if now >= last { now - last } else { 0 }) >= interval,
        }
    }
}

/// Connection attempts are paced: none is due while connected; one is due
/// at once before any attempt; after an attempt at `last`, none is due until
/// `interval` milliseconds have passed, and one is due from then on.
pub proof fn law_reconnection_is_paced(connected: bool, last: u64, now: u64, interval: u64)
    ensures
        connected ==> !reconnect_due(connected, None, now, interval) && !reconnect_due(connected, Some(last), now, interval),
        !connected ==> reconnect_due(connected, None, now, interval),
        !connected && last <= now ==> (reconnect_due(connected, Some(last), now, interval) <==> now - last >= interval),
        !connected && now < last ==> (reconnect_due(connected, Some(last), now, interval) <==> interval == 0),
{
}

/// The state of a [`SceneSender`].
pub struct SenderModel {
    /// A transport has been set.
    pub enabled: bool,
    /// Sequence number of the next frame.
    pub sequence: u64,
    /// Number of the next frame (in the sense of `start_frame`).
    pub frame_number: u64,
    /// Messages held back until the current frame ends.
    pub batch: Seq<MessageModel>,
    pub in_frame: bool,
    pub last_connect_attempt: Option<u64>,
    pub retry_interval_ms: u64,
}

/// Sends one message at once: with a transport it leaves as the next frame.
pub open spec fn emit(s: SenderModel, m: MessageModel) -> (SenderModel, Seq<FrameModel>) {
    if !s.enabled {
        (s, Seq::empty())
    } else {
        (
            SenderModel { sequence: (s.sequence + 1) as u64, ..s },
            seq![FrameModel { sequence: s.sequence, message: m }],
        )
    }
}

/// `send_message`: inside a frame the message is held back, else it is sent.
pub open spec fn send_spec(s: SenderModel, m: MessageModel) -> (SenderModel, Seq<FrameModel>) {
    if !s.enabled {
        (s, Seq::empty())
    } else if s.in_frame {
        (SenderModel { batch: s.batch.push(m), ..s }, Seq::empty())
    } else {
        emit(s, m)
    }
}

/// `start_frame`: opens a frame and announces it.
pub open spec fn start_frame_spec(s: SenderModel) -> (SenderModel, Seq<FrameModel>) {
    let s1 = SenderModel { frame_number: (s.frame_number + 1) as u64, in_frame: true, ..s };
    emit(s1, MessageModel::FrameBegin { frame_number: s.frame_number })
}

/// What leaves for the messages held back in a frame: nothing, the one
/// message, or a batch of all of them in order.
pub open spec fn batch_body(b: Seq<MessageModel>) -> Option<MessageModel> {
    if b.len() == 0 {
        None
    } else if b.len() == 1 {
        Some(b[0])
    } else {
        Some(MessageModel::Batch(b))
    }
}

/// `end_frame`: closes the current frame, sends what it held back and the
/// end marker; outside a frame nothing happens.
pub open spec fn end_frame_spec(s: SenderModel) -> (SenderModel, Seq<FrameModel>) {
    if !s.in_frame {
        (s, Seq::empty())
    } else {
        let n: u64 = if s.frame_number > 0 { (s.frame_number - 1) as u64 } else { 0 };
        let s1 = SenderModel { in_frame: false, batch: Seq::empty(), ..s };
        let (s2, o1) = match batch_body(s.batch) {
            None => (s1, Seq::empty()),
            Some(m) => emit(s1, m),
        };
        let (s3, o2) = emit(s2, MessageModel::FrameEnd { frame_number: n });
        (s3, o1 + o2)
    }
}

/// `send_message` can proceed without its sequence number overflowing: a
/// message that leaves at once needs a number.
pub open spec fn send_ok(s: SenderModel) -> bool {
    s.enabled && !s.in_frame ==> s.sequence < u64::MAX
}

/// `start_frame` can proceed: the frame count moves on, and with a transport
/// the begin marker needs a sequence number.
pub open spec fn start_frame_ok(s: SenderModel) -> bool {
    &&& s.frame_number < u64::MAX
    &&& s.enabled ==> s.sequence < u64::MAX
}

/// `end_frame` can proceed: closing a frame with a transport needs a
/// sequence number for the end marker and one more for what it held back.
pub open spec fn end_frame_ok(s: SenderModel) -> bool {
    s.in_frame && s.enabled ==> s.sequence + (if s.batch.len() == 0 { 1int } else { 2int }) <= u64::MAX
}

/// Sends the messages of a scene to a receiver, grouping those of one frame.
pub struct SceneSender {
    enabled: bool,
    sequence: u64,
    frame_number: u64,
    config: TransportConfig,
    batch_buffer: Vec<SceneMessage>,
    in_frame: bool,
    last_connect_attempt: Option<u64>,
    connect_retry_interval_ms: u64,
}

impl View for SceneSender {
    type V = SenderModel;

    closed spec fn view(&self) -> SenderModel {
        SenderModel {
            enabled: self.enabled,
            sequence: self.sequence,
            frame_number: self.frame_number,
            batch: self.batch_buffer@.map_values(|m: SceneMessage| m@),
            in_frame: self.in_frame,
            last_connect_attempt: self.last_connect_attempt,
            retry_interval_ms: self.connect_retry_interval_ms,
        }
    }
}

impl SceneSender {
    /// The configuration the sender was made with.
    pub closed spec fn spec_config(&self) -> TransportConfig {
        self.config
    }

    /// A sender without a transport, before any frame.
    pub fn new(config: TransportConfig) -> (r: Self)
        ensures
            r@ == (SenderModel {
                enabled: false,
                sequence: 0,
                frame_number: 0,
                batch: Seq::empty(),
                in_frame: false,
                last_connect_attempt: None,
                retry_interval_ms: 1000,
            }),
            r.spec_config() == config,
    {
        let r = SceneSender {
            enabled: false,
            sequence: 0,
            frame_number: 0,
            config,
            batch_buffer: Vec::new(),
            in_frame: false,
            last_connect_attempt: None,
            connect_retry_interval_ms: 1000,
        };
        proof {
            assert(r@.batch =~= Seq::<MessageModel>::empty());
        }
        r
    }

    /// Records that a transport has been set: from now on messages are sent.
    pub fn set_transport(&mut self)
        ensures
            final(self)@ == (SenderModel { enabled: true, ..old(self)@ }),
            final(self).spec_config() == old(self).spec_config(),
    {
        self.enabled = true;
    }

    /// The configuration the sender was made with.
    pub fn config(&self) -> (r: &TransportConfig)
        ensures
            *r == self.spec_config(),
    {
        &self.config
    }

    /// Whether a transport has been set.
    pub fn is_enabled(&self) -> (r: bool)
        ensures
            r == self@.enabled,
    {
        self.enabled
    }

    /// The number of the next frame.
    pub fn frame_number(&self) -> (r: u64)
        ensures
            r == self@.frame_number,
    {
        self.frame_number
    }

    /// The sequence number of the next frame sent.
    pub fn sequence(&self) -> (r: u64)
        ensures
            r == self@.sequence,
    {
        self.sequence
    }

    /// Whether `send_message` can proceed without overflowing the sequence
    /// number.
    pub fn can_send(&self) -> (r: bool)
        ensures
            r == send_ok(self@),
    {
        !(self.enabled && !self.in_frame) || self.sequence < u64::MAX
    }

    /// Whether `start_frame` can proceed without overflowing the frame or
    /// sequence number.
    pub fn can_start_frame(&self) -> (r: bool)
        ensures
            r == start_frame_ok(self@),
    {
        self.frame_number < u64::MAX && (!self.enabled || self.sequence < u64::MAX)
    }

    /// Whether `end_frame` can proceed without overflowing the sequence
    /// number.
    pub fn can_end_frame(&self) -> (r: bool)
        ensures
            r == end_frame_ok(self@),
    {
        if self.in_frame && self.enabled {
            let needed: u64 = if self.batch_buffer.len() == 0 { 1 } else { 2 };
            self.sequence <= u64::MAX - needed
        } else {
            true
        }
    }

    /// Whether a connection attempt is due now, given whether the transport
    /// is connected; when it is, the attempt is recorded at `now_ms` and the
    /// caller makes it.
    pub fn maybe_reconnect(&mut self, connected: bool, now_ms: u64) -> (r: bool)
        ensures
            r == reconnect_due(connected, old(self)@.last_connect_attempt, now_ms, old(self)@.retry_interval_ms),
            final(self)@ == (if r {
                SenderModel { last_connect_attempt: Some(now_ms), ..old(self)@ }
            } else {
                old(self)@
            }),
            final(self).spec_config() == old(self).spec_config(),
    {
        let due = if connected {
            false
        } else {
            match self.last_connect_attempt {
                None => true,
                Some(last) => {
                    let elapsed: u64 = if now_ms >= last { now_ms - last } else { 0 };
                    elapsed >= self.connect_retry_interval_ms
                },
            }
        };
        if due {
            self.last_connect_attempt = Some(now_ms);
        }
        due
    }

    /// Sends a message at once, bypassing the frame.
    fn send_message_immediate(&mut self, message: SceneMessage, out: &mut Vec<MessageFrame>)
        requires
            old(self)@.enabled ==> old(self)@.sequence < u64::MAX,
        ensures
            ({
                let (s, o) = emit(old(self)@, message@);
                &&& final(self)@ == s
                &&& frames_model(final(out)@) == frames_model(old(out)@) + o
            }),
            final(self).spec_config() == old(self).spec_config(),
    {
        if !self.enabled {
            return;
        }
        let sequence = self.sequence;
        self.sequence = self.sequence + 1;
        let ghost m = message@;
        out.push(MessageFrame::new(sequence, message));
        proof {
            assert(frames_model(out@) =~= frames_model(old(out)@) + seq![FrameModel { sequence, message: m }]);
        }
    }

    /// Sends a message; inside a frame it is held back until the frame ends.
    /// Returns the frames to write to the transport.
    pub fn send_message(&mut self, message: SceneMessage) -> (r: Vec<MessageFrame>)
        requires
            send_ok(old(self)@),
        ensures
            (final(self)@, frames_model(r@)) == send_spec(old(self)@, message@),
            final(self).spec_config() == old(self).spec_config(),
    {
        let mut out: Vec<MessageFrame> = Vec::new();
        if !self.enabled {
            proof {
                assert(frames_model(out@) =~= Seq::<FrameModel>::empty());
            }
            return out;
        }
        if self.in_frame {
            let ghost m = message@;
            self.batch_buffer.push(message);
            proof {
                assert(self@.batch =~= old(self)@.batch.push(m));
                assert(frames_model(out@) =~= Seq::<FrameModel>::empty());
            }
            return out;
        }
        self.send_message_immediate(message, &mut out);
        proof {
            assert(frames_model(out@) =~= emit(old(self)@, message@).1);
        }
        out
    }

    /// Announces that an entity was spawned.
    pub fn send_entity_spawn(&mut self, name: &str, is_renderable: bool, is_on_gui: bool) -> (r: Vec<MessageFrame>)
        requires
            send_ok(old(self)@),
        ensures
            (final(self)@, frames_model(r@)) == send_spec(
                old(self)@,
                MessageModel::EntitySpawn { entity_name: name@, is_renderable, is_on_gui },
            ),
            final(self).spec_config() == old(self).spec_config(),
    {
        let message = SceneMessage::EntitySpawn { entity_name: name.to_owned(), is_renderable, is_on_gui };
        self.send_message(message)
    }

    /// Announces a component inserted into an entity; `data` is the
    /// component's serialised form.
    pub fn send_component(&mut self, entity_name: &str, component_type: ComponentTypeId, data: Vec<u8>) -> (r: Vec<MessageFrame>)
        requires
            send_ok(old(self)@),
        ensures
            (final(self)@, frames_model(r@)) == send_spec(
                old(self)@,
                MessageModel::ComponentInsert {
                    entity_name: entity_name@,
                    component_type: component_type.0@,
                    data: data@,
                },
            ),
            final(self).spec_config() == old(self).spec_config(),
    {
        let message = SceneMessage::ComponentInsert { entity_name: entity_name.to_owned(), component_type, data };
        self.send_message(message)
    }

    /// Opens a frame: what is sent until `end_frame` reaches the receiver as
    /// one group.
    pub fn start_frame(&mut self) -> (r: Vec<MessageFrame>)
        requires
            start_frame_ok(old(self)@),
        ensures
            (final(self)@, frames_model(r@)) == start_frame_spec(old(self)@),
            final(self).spec_config() == old(self).spec_config(),
    {
        let frame_num = self.frame_number;
        self.frame_number = self.frame_number + 1;
        self.in_frame = true;
        let mut out: Vec<MessageFrame> = Vec::new();
        self.send_message_immediate(SceneMessage::FrameBegin { frame_number: frame_num }, &mut out);
        proof {
            assert(frames_model(out@) =~= start_frame_spec(old(self)@).1);
        }
        out
    }

    /// Closes the current frame and sends what it held back, then the end
    /// marker.
    pub fn end_frame(&mut self) -> (r: Vec<MessageFrame>)
        requires
            end_frame_ok(old(self)@),
        ensures
            (final(self)@, frames_model(r@)) == end_frame_spec(old(self)@),
            final(self).spec_config() == old(self).spec_config(),
    {
        let mut out: Vec<MessageFrame> = Vec::new();
        if !self.in_frame {
            proof {
                assert(frames_model(out@) =~= Seq::<FrameModel>::empty());
            }
            return out;
        }
        let frame_num: u64 = if self.frame_number > 0 { self.frame_number - 1 } else { 0 };
        self.in_frame = false;
        let mut messages: Vec<SceneMessage> = Vec::new();
        std::mem::swap(&mut messages, &mut self.batch_buffer);
        let ghost b = messages@.map_values(|m: SceneMessage| m@);
        assert(b == old(self)@.batch);
        proof {
            assert(self@.batch =~= Seq::<MessageModel>::empty());
            assert(frames_model(out@) =~= Seq::<FrameModel>::empty());
        }
        if messages.len() == 1 {
            let m = messages.pop().unwrap();
            proof {
                assert(m@ == b[0]);
            }
            self.send_message_immediate(m, &mut out);
        } else if messages.len() > 1 {
            let batch = SceneMessage::Batch(messages);
            proof {
                if let MessageModel::Batch(x) = batch@ {
                    assert(x =~= b);
                }
            }
            self.send_message_immediate(batch, &mut out);
        }
        self.send_message_immediate(SceneMessage::FrameEnd { frame_number: frame_num }, &mut out);
        out
    }
}

} // verus!

//! Messages exchanged between a scene sender and a scene receiver.

use vstd::prelude::*;

verus! {

/// Identifies the type of a component that travels over the network.
pub struct ComponentTypeId(pub String);

/// A single change of the scene that can be sent over the network.
pub enum SceneMessage {
    ComponentInsert { entity_name: String, component_type: ComponentTypeId, data: Vec<u8> },
    EntitySpawn { entity_name: String, is_renderable: bool, is_on_gui: bool },
    Batch(Vec<SceneMessage>),
    FrameBegin { frame_number: u64 },
    FrameEnd { frame_number: u64 },
    Ping { timestamp_ms: u64 },
    Pong { timestamp_ms: u64 },
}

/// The mathematical value of a [`SceneMessage`].
pub enum MessageModel {
    ComponentInsert { entity_name: Seq<char>, component_type: Seq<char>, data: Seq<u8> },
    EntitySpawn { entity_name: Seq<char>, is_renderable: bool, is_on_gui: bool },
    Batch(Seq<MessageModel>),
    FrameBegin { frame_number: u64 },
    FrameEnd { frame_number: u64 },
    Ping { timestamp_ms: u64 },
    Pong { timestamp_ms: u64 },
}

pub open spec fn message_model(m: SceneMessage) -> MessageModel
    decreases m,
{
    match m {
        SceneMessage::ComponentInsert { entity_name, component_type, data } => MessageModel::ComponentInsert {
            entity_name: entity_name@,
            component_type: component_type.0@,
            data: data@,
        },
        SceneMessage::EntitySpawn { entity_name, is_renderable, is_on_gui } => MessageModel::EntitySpawn {
            entity_name: entity_name@,
            is_renderable,
            is_on_gui,
        },
        SceneMessage::Batch(v) => MessageModel::Batch(
            Seq::new(
                v@.len(),
                |i: int|
                    if 0 <= i < v@.len() {
                        proof {
                            assert(decreases_to!(v => v@));
                            assert(decreases_to!(v@ => v@[i]));
                        }
                        message_model(v@[i])
                    } else {
                        MessageModel::Ping { timestamp_ms: 0 }
                    },
            ),
        ),
        SceneMessage::FrameBegin { frame_number } => MessageModel::FrameBegin { frame_number },
        SceneMessage::FrameEnd { frame_number } => MessageModel::FrameEnd { frame_number },
        SceneMessage::Ping { timestamp_ms } => MessageModel::Ping { timestamp_ms },
        SceneMessage::Pong { timestamp_ms } => MessageModel::Pong { timestamp_ms },
    }
}


impl View for SceneMessage {
    type V = MessageModel;

    open spec fn view(&self) -> MessageModel {
        message_model(*self)
    }
}

impl Clone for ComponentTypeId {
    fn clone(&self) -> (r: Self)
        ensures
            r == *self,
    {
        ComponentTypeId(self.0.clone())
    }
}

impl Clone for SceneMessage {
    fn clone(&self) -> (r: Self)
        ensures
            r@ == self@,
        decreases self,
    {
        match self {
            SceneMessage::ComponentInsert { entity_name, component_type, data } => SceneMessage::ComponentInsert {
                entity_name: entity_name.clone(),
                component_type: component_type.clone(),
                data: data.clone(),
            },
            SceneMessage::EntitySpawn { entity_name, is_renderable, is_on_gui } => SceneMessage::EntitySpawn {
                entity_name: entity_name.clone(),
                is_renderable: *is_renderable,
                is_on_gui: *is_on_gui,
            },
            SceneMessage::Batch(v) => {
                let mut out: Vec<SceneMessage> = Vec::new();
                let mut i: usize = 0;
                while i < v.len()
                    invariant
                        i <= v@.len(),
                        out@.len() == i,
                        *self == SceneMessage::Batch(*v),
                        forall|j: int|
                            0 <= j < i ==> message_model(#[trigger] out@[j]) == message_model(v@[j]),
                    decreases v@.len() - i,
                {
                    proof {
                        assert(decreases_to!(*self => self->0));
                        assert(decreases_to!(v => v@));
                        assert(decreases_to!(v@ => v@[i as int]));
                    }
                    let c = v[i].clone();
                    out.push(c);
                    i = i + 1;
                }
                let r = SceneMessage::Batch(out);
                assert(r@ == self@) by {
                    if let MessageModel::Batch(a) = r@ {
                        if let MessageModel::Batch(b) = self@ {
                            assert forall|j: int| 0 <= j < a.len() implies a[j] == b[j] by {
                                assert(message_model(out@[j]) == message_model(v@[j]));
                            }
                            assert(a =~= b);
                        }
                    }
                }
                r
            },
            SceneMessage::FrameBegin { frame_number } => SceneMessage::FrameBegin { frame_number: *frame_number },
            SceneMessage::FrameEnd { frame_number } => SceneMessage::FrameEnd { frame_number: *frame_number },
            SceneMessage::Ping { timestamp_ms } => SceneMessage::Ping { timestamp_ms: *timestamp_ms },
            SceneMessage::Pong { timestamp_ms } => SceneMessage::Pong { timestamp_ms: *timestamp_ms },
        }
    }
}


/// A message together with the sequence number under which it was sent.
pub struct MessageFrame {
    pub sequence: u64,
    pub message: SceneMessage,
}

/// The mathematical value of a [`MessageFrame`].
pub struct FrameModel {
    pub sequence: u64,
    pub message: MessageModel,
}

impl View for MessageFrame {
    type V = FrameModel;

    open spec fn view(&self) -> FrameModel {
        FrameModel { sequence: self.sequence, message: self.message@ }
    }
}

/// The frames of a sequence of frames, each taken by its value.
pub open spec fn frames_model(frames: Seq<MessageFrame>) -> Seq<FrameModel> {
    frames.map_values(|f: MessageFrame| f@)
}

/// A batch is taken apart into one frame per message it holds, each with the
/// sequence number of the batch; any other message is left as the one frame.
pub open spec fn individual_frames(f: FrameModel) -> Seq<FrameModel> {
    match f.message {
        MessageModel::Batch(ms) => Seq::new(
            ms.len(),
            |i: int| FrameModel { sequence: f.sequence, message: ms[i] },
        ),
        _ => seq![f],
    }
}

impl MessageFrame {
    pub fn new(sequence: u64, message: SceneMessage) -> (r: Self)
        ensures
            r.sequence == sequence,
            r.message == message,
    {
        MessageFrame { sequence, message }
    }

    /// Splits a batch into frames of its own, so that a receiver can apply
    /// them one by one.
    pub fn to_individual_messages(&self) -> (r: Vec<MessageFrame>)
        ensures
            frames_model(r@) == individual_frames(self@),
    {
        match &self.message {
            SceneMessage::Batch(messages) => {
                let mut out: Vec<MessageFrame> = Vec::new();
                let mut i: usize = 0;
                while i < messages.len()
                    invariant
                        i <= messages@.len(),
                        out@.len() == i,
                        self.message == SceneMessage::Batch(*messages),
                        forall|j: int|
                            0 <= j < i ==> (#[trigger] out@[j]).sequence == self.sequence
                                && message_model(out@[j].message) == message_model(messages@[j]),
                    decreases messages@.len() - i,
                {
                    let m = messages[i].clone();
                    out.push(MessageFrame { sequence: self.sequence, message: m });
                    i = i + 1;
                }
                proof {
                    let a = frames_model(out@);
                    let b = individual_frames(self@);
                    if let MessageModel::Batch(ms) = self@.message {
                        assert forall|j: int| 0 <= j < a.len() implies a[j] == b[j] by {
                            assert(out@[j].sequence == self.sequence);
                            assert(message_model(out@[j].message) == message_model(messages@[j]));
                        }
                    }
                    assert(a =~= b);
                }
                out
            },
            _ => {
                let mut out: Vec<MessageFrame> = Vec::new();
                out.push(MessageFrame { sequence: self.sequence, message: self.message.clone() });
                proof {
                    assert(frames_model(out@) =~= individual_frames(self@));
                }
                out
            },
        }
    }
}

} // verus!

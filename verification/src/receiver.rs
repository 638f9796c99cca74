//! The receiving side of scene synchronisation: what each received message
//! asks of the local scene, sequence-gap detection, the pacing of
//! reconnection attempts and the bounded draining of the transport.
//!
//! The receiver decides; the caller owns the transport and the scene, hands
//! the receiver what it read and the names of the entities the scene holds,
//! and carries out the actions it gets back, in order.

use vstd::prelude::*;
use crate::messages::{
    ComponentTypeId, FrameModel, MessageFrame, MessageModel, SceneMessage, frames_model,
    individual_frames, message_model,
};
use crate::sender::reconnect_due;
use crate::transport::{TransportConfig, TransportError};

verus! {

/// The entity that a received component goes to.
pub enum EntityTarget {
    /// The scene's entity that holds its resources.
    Resource,
    /// The entity of that name.
    Named(String),
}

/// What the scene is asked to do for a received message.
pub enum ReceiverAction {
    /// Spawn an entity with this name and these markers.
    Spawn { entity_name: String, is_renderable: bool, is_on_gui: bool },
    /// Deserialise `data` as a component of the given type and insert it.
    InsertComponent { target: EntityTarget, component_type: ComponentTypeId, data: Vec<u8> },
    /// A spawn was refused: an entity of that name exists already.
    SkipExistingEntity { entity_name: String },
    /// A component was refused: no entity of that name exists.
    MissingEntity { entity_name: String },
}

/// The mathematical value of an [`EntityTarget`].
pub enum TargetModel {
    Resource,
    Named(Seq<char>),
}

/// The mathematical value of a [`ReceiverAction`].
pub enum ActionModel {
    Spawn { entity_name: Seq<char>, is_renderable: bool, is_on_gui: bool },
    InsertComponent { target: TargetModel, component_type: Seq<char>, data: Seq<u8> },
    SkipExistingEntity { entity_name: Seq<char> },
    MissingEntity { entity_name: Seq<char> },
}

impl View for ReceiverAction {
    type V = ActionModel;

    open spec fn view(&self) -> ActionModel {
        match *self {
            ReceiverAction::Spawn { entity_name, is_renderable, is_on_gui } => ActionModel::Spawn {
                entity_name: entity_name@,
                is_renderable,
                is_on_gui,
            },
            ReceiverAction::InsertComponent { target, component_type, data } => ActionModel::InsertComponent {
                target: match target {
                    EntityTarget::Resource => TargetModel::Resource,
                    EntityTarget::Named(n) => TargetModel::Named(n@),
                },
                component_type: component_type.0@,
                data: data@,
            },
            ReceiverAction::SkipExistingEntity { entity_name } => ActionModel::SkipExistingEntity {
                entity_name: entity_name@,
            },
            ReceiverAction::MissingEntity { entity_name } => ActionModel::MissingEntity { entity_name: entity_name@ },
        }
    }
}

/// The actions of a sequence of actions, each taken by its value.
pub open spec fn actions_model(a: Seq<ReceiverAction>) -> Seq<ActionModel> {
    a.map_values(|x: ReceiverAction| x@)
}

/// The names of a sequence of names, each taken by its value.
pub open spec fn names_model(n: Seq<String>) -> Seq<Seq<char>> {
    n.map_values(|x: String| x@)
}

/// Names that the local viewer creates itself: spawns of them are ignored.
pub open spec fn is_reserved_name(n: Seq<char>) -> bool {
    n == "floor"@ || n == "gloss_camera"@
}

/// The name under which a component goes to the scene's resource entity.
pub open spec fn is_resource_name(n: Seq<char>) -> bool {
    n == "entity_resource"@
}

/// What one message asks of a scene whose entities have the names `names`.
/// A batch asks what its messages ask, in order, all of the same scene.
pub open spec fn plan(m: MessageModel, names: Seq<Seq<char>>) -> Seq<ActionModel>
    decreases m,
{
    match m {
        MessageModel::Batch(ms) => plan_all(ms, names),
        MessageModel::EntitySpawn { entity_name, is_renderable, is_on_gui } => {
            if is_reserved_name(entity_name) {
                Seq::empty()
            } else if names.contains(entity_name) {
                seq![ActionModel::SkipExistingEntity { entity_name }]
            } else {
                seq![ActionModel::Spawn { entity_name, is_renderable, is_on_gui }]
            }
        },
        MessageModel::ComponentInsert { entity_name, component_type, data } => {
            if is_resource_name(entity_name) {
                seq![ActionModel::InsertComponent { target: TargetModel::Resource, component_type, data }]
            } else if names.contains(entity_name) {
                seq![ActionModel::InsertComponent { target: TargetModel::Named(entity_name), component_type, data }]
            } else {
                seq![ActionModel::MissingEntity { entity_name }]
            }
        },
        _ => Seq::empty(),
    }
}

/// What the messages `ms` ask, one after the other, of the same scene.
pub open spec fn plan_all(ms: Seq<MessageModel>, names: Seq<Seq<char>>) -> Seq<ActionModel>
    decreases ms,
{
    if ms.len() == 0 {
        Seq::empty()
    } else {
        proof {
            assert(decreases_to!(ms => ms[ms.len() - 1]));
        }
        plan_all(ms.subrange(0, ms.len() - 1), names) + plan(ms[ms.len() - 1], names)
    }
}

fn eq_literal(a: &String, lit: &str) -> (r: bool)
    ensures
        r == (a@ == lit@),
{
    let b: String = lit.to_owned();
    *a == b
}

/// Whether one of `names` is `name`.
fn contains_name(names: &Vec<String>, name: &String) -> (r: bool)
    ensures
        r == names_model(names@).contains(name@),
{
    let mut i: usize = 0;
    while i < names.len()
        invariant
            i <= names@.len(),
            forall|j: int| 0 <= j < i ==> (#[trigger] names@[j])@ != name@,
        decreases names@.len() - i,
    {
        if names[i] == *name {
            proof {
                assert(names_model(names@)[i as int] == name@);
            }
            return true;
        }
        i = i + 1;
    }
    proof {
        if names_model(names@).contains(name@) {
            let k = choose|k: int| 0 <= k < names_model(names@).len() && names_model(names@)[k] == name@;
            assert(names@[k]@ == name@);
        }
    }
    false
}

/// What a message asks of a scene whose entities have the names `names`.
pub fn plan_message(message: &SceneMessage, names: &Vec<String>) -> (r: Vec<ReceiverAction>)
    ensures
        actions_model(r@) == plan(message@, names_model(names@)),
    decreases message,
{
    let mut out: Vec<ReceiverAction> = Vec::new();
    match message {
        SceneMessage::Batch(v) => {
            let ghost ms = match message@ {
                MessageModel::Batch(x) => x,
                _ => Seq::empty(),
            };
            let mut i: usize = 0;
            while i < v.len()
                invariant
                    i <= v@.len(),
                    *message == SceneMessage::Batch(*v),
                    message@ == MessageModel::Batch(ms),
                    ms.len() == v@.len(),
                    forall|j: int| 0 <= j < v@.len() ==> #[trigger] ms[j] == message_model(v@[j]),
                    actions_model(out@) == plan_all(ms.subrange(0, i as int), names_model(names@)),
                decreases v@.len() - i,
            {
                proof {
                    assert(decreases_to!(*message => message->0));
                    assert(decreases_to!(v => v@));
                    assert(decreases_to!(v@ => v@[i as int]));
                }
                let ghost before = out@;
                let mut sub = plan_message(&v[i], names);
                let ghost sub_v = sub@;
                out.append(&mut sub);
                i = i + 1;
                proof {
                    let pre = ms.subrange(0, i as int);
                    assert(pre.subrange(0, pre.len() - 1) =~= ms.subrange(0, i - 1));
                    assert(pre[pre.len() - 1] == ms[i - 1]);
                    assert(actions_model(out@) =~= actions_model(before) + actions_model(sub_v));
                }
            }
            proof {
                assert(ms.subrange(0, v@.len() as int) =~= ms);
            }
        },
        SceneMessage::EntitySpawn { entity_name, is_renderable, is_on_gui } => {
            if eq_literal(entity_name, "floor") || eq_literal(entity_name, "gloss_camera") {
            } else if contains_name(names, entity_name) {
                out.push(ReceiverAction::SkipExistingEntity { entity_name: entity_name.clone() });
            } else {
                out.push(
                    ReceiverAction::Spawn {
                        entity_name: entity_name.clone(),
                        is_renderable: *is_renderable,
                        is_on_gui: *is_on_gui,
                    },
                );
            }
            proof {
                assert(actions_model(out@) =~= plan(message@, names_model(names@)));
            }
        },
        SceneMessage::ComponentInsert { entity_name, component_type, data } => {
            if eq_literal(entity_name, "entity_resource") {
                out.push(
                    ReceiverAction::InsertComponent {
                        target: EntityTarget::Resource,
                        component_type: component_type.clone(),
                        data: data.clone(),
                    },
                );
            } else if contains_name(names, entity_name) {
                out.push(
                    ReceiverAction::InsertComponent {
                        target: EntityTarget::Named(entity_name.clone()),
                        component_type: component_type.clone(),
                        data: data.clone(),
                    },
                );
            } else {
                out.push(ReceiverAction::MissingEntity { entity_name: entity_name.clone() });
            }
            proof {
                assert(actions_model(out@) =~= plan(message@, names_model(names@)));
            }
        },
        _ => {
            proof {
                assert(actions_model(out@) =~= plan(message@, names_model(names@)));
            }
        },
    }
    out
}


/// The plugin that receives the scene from the network at every frame.
pub struct SceneReceiverPlugin {
    pub autorun: bool,
}

impl SceneReceiverPlugin {
    pub fn new(autorun: bool) -> (r: Self)
        ensures
            r.autorun == autorun,
    {
        SceneReceiverPlugin { autorun }
    }
}

/// The most frames taken from the transport in one go.
pub const MAX_PENDING_FRAMES: usize = 30;

/// What the draining of the transport does next.
pub enum ReceiveStep {
    /// Ask the transport for another frame.
    More,
    /// Stop and hand over the frames taken so far.
    Done,
    /// Stop with this error.
    Failed(TransportError),
}

/// What one read of the transport gave, as the draining sees it.
pub enum ReadModel {
    Frame(FrameModel),
    /// No frame was ready.
    Nothing,
    /// The connection was closed.
    Closed,
    /// Any other error.
    Failed,
}

/// The value of a read of the transport.
pub open spec fn read_model(r: Result<Option<MessageFrame>, TransportError>) -> ReadModel {
    match r {
        Ok(Some(f)) => ReadModel::Frame(f@),
        Ok(None) => ReadModel::Nothing,
        Err(TransportError::ConnectionClosed) => ReadModel::Closed,
        Err(_) => ReadModel::Failed,
    }
}

/// How draining goes on after a read.
pub enum StepModel {
    More,
    Done,
    Closed,
    Failed,
}

/// The value of a [`ReceiveStep`].
pub open spec fn step_model(r: ReceiveStep) -> StepModel {
    match r {
        ReceiveStep::More => StepModel::More,
        ReceiveStep::Done => StepModel::Done,
        ReceiveStep::Failed(TransportError::ConnectionClosed) => StepModel::Closed,
        ReceiveStep::Failed(_) => StepModel::Failed,
    }
}

/// One read while draining into `frames`: a frame is kept, and draining
/// stops once no frame is ready, once [`MAX_PENDING_FRAMES`] frames are held,
/// or at an error.
pub open spec fn receive_step(frames: Seq<FrameModel>, read: ReadModel) -> (Seq<FrameModel>, StepModel) {
    match read {
        ReadModel::Frame(f) => (
            frames.push(f),
            if frames.len() + 1 >= MAX_PENDING_FRAMES { StepModel::Done } else { StepModel::More },
        ),
        ReadModel::Nothing => (frames, StepModel::Done),
        ReadModel::Closed => (frames, StepModel::Closed),
        ReadModel::Failed => (frames, StepModel::Failed),
    }
}

/// Draining on from `frames` over the reads `reads`, as far as they go: the
/// frames taken, the number of reads made, and how draining ended (`None`
/// where it asks for more reads than given).
pub open spec fn drain_from(frames: Seq<FrameModel>, reads: Seq<ReadModel>) -> (Seq<FrameModel>, nat, Option<StepModel>)
    decreases reads.len(),
{
    if reads.len() == 0 {
        (frames, 0, None)
    } else {
        let (fr, step) = receive_step(frames, reads[0]);
        match step {
            StepModel::More => {
                let (a, u, e) = drain_from(fr, reads.subrange(1, reads.len() as int));
                (a, u + 1, e)
            },
            _ => (fr, 1, Some(step)),
        }
    }
}

/// Draining the transport of a receiver, given what successive reads give:
/// without a transport nothing is read and no frame taken; else it drains
/// from no frames.
pub open spec fn drain(enabled: bool, reads: Seq<ReadModel>) -> (Seq<FrameModel>, nat, Option<StepModel>) {
    if !enabled {
        (Seq::empty(), 0, Some(StepModel::Done))
    } else {
        drain_from(Seq::empty(), reads)
    }
}

/// The frames among some reads, in order.
pub open spec fn frames_read(reads: Seq<ReadModel>) -> Seq<FrameModel>
    decreases reads.len(),
{
    if reads.len() == 0 {
        Seq::empty()
    } else {
        (match reads[0] {
            ReadModel::Frame(f) => seq![f],
            _ => Seq::empty(),
        }) + frames_read(reads.subrange(1, reads.len() as int))
    }
}

/// The state of a [`SceneReceiver`].
pub struct ReceiverModel {
    /// A transport has been set and not dropped since.
    pub enabled: bool,
    /// Sequence number of the last frame processed.
    pub last_sequence: u64,
    pub auto_reconnect: bool,
    pub reconnect_delay_ms: u64,
    pub last_connect_attempt: Option<u64>,
}

/// A report on one processed frame: the sequence number that was expected
/// where the frame's number was not it, and what the scene is to do.
pub struct FrameReport {
    pub gap: Option<u64>,
    pub actions: Vec<ReceiverAction>,
}

/// The mathematical value of a [`FrameReport`].
pub struct ReportModel {
    pub gap: Option<u64>,
    pub actions: Seq<ActionModel>,
}

impl View for FrameReport {
    type V = ReportModel;

    open spec fn view(&self) -> ReportModel {
        ReportModel { gap: self.gap, actions: actions_model(self.actions@) }
    }
}

/// The reports of a sequence of reports, each taken by its value.
pub open spec fn reports_model(r: Seq<FrameReport>) -> Seq<ReportModel> {
    r.map_values(|x: FrameReport| x@)
}

/// The expected sequence number where a frame numbered `seq` breaks the
/// order after `last`: frame 0 never does, any other must follow `last`.
pub open spec fn sequence_gap(last: u64, seq: u64) -> Option<u64> {
    if seq > 0 && seq != last + 1 {
        Some((last + 1) as u64)
    } else {
        None
    }
}

/// The names of a scene after a message: an entity spawned for it is added.
pub open spec fn names_after(names: Seq<Seq<char>>, m: MessageModel, actions: Seq<ActionModel>) -> Seq<Seq<char>> {
    match m {
        MessageModel::EntitySpawn { entity_name, .. } => if actions.len() == 1 && actions[0] is Spawn {
            names.push(entity_name)
        } else {
            names
        },
        _ => names,
    }
}

/// Processing frames one after the other against a scene whose names are
/// `names`, after the frame numbered `last`: the reports, the last sequence
/// number, and the names of the scene afterwards.
pub open spec fn process_all(last: u64, fs: Seq<FrameModel>, names: Seq<Seq<char>>) -> (u64, Seq<ReportModel>, Seq<Seq<char>>)
    decreases fs.len(),
{
    if fs.len() == 0 {
        (last, Seq::empty(), names)
    } else {
        let f = fs[0];
        let actions = plan(f.message, names);
        let report = ReportModel { gap: sequence_gap(last, f.sequence), actions };
        let (l, r, n) = process_all(f.sequence, fs.subrange(1, fs.len() as int), names_after(names, f.message, actions));
        (l, seq![report] + r, n)
    }
}

/// All frames taken apart into frames of single messages, in order.
pub open spec fn all_individual(fs: Seq<FrameModel>) -> Seq<FrameModel>
    decreases fs.len(),
{
    if fs.len() == 0 {
        Seq::empty()
    } else {
        all_individual(fs.subrange(0, fs.len() - 1)) + individual_frames(fs[fs.len() - 1])
    }
}

/// Whether processing the frames `fs` one after the other, after the frame
/// numbered `last`, never needs the number after `u64::MAX` (it is needed
/// for every frame not numbered 0, to check that it follows its predecessor).
pub open spec fn overflow_free(last: u64, fs: Seq<FrameModel>) -> bool
    decreases fs.len(),
{
    fs.len() == 0 || ((fs[0].sequence > 0 ==> last < u64::MAX) && overflow_free(
        fs[0].sequence,
        fs.subrange(1, fs.len() as int),
    ))
}

/// All frames taken apart into frames of single messages, in order.
fn individual_frames_of(frames: &Vec<MessageFrame>) -> (r: Vec<MessageFrame>)
    ensures
        frames_model(r@) == all_individual(frames_model(frames@)),
{
    let ghost fs = frames_model(frames@);
    let mut individual: Vec<MessageFrame> = Vec::new();
    let mut i: usize = 0;
    while i < frames.len()
        invariant
            i <= frames@.len(),
            fs == frames_model(frames@),
            frames_model(individual@) == all_individual(fs.subrange(0, i as int)),
        decreases frames@.len() - i,
    {
        let ghost before = individual@;
        let mut parts = frames[i].to_individual_messages();
        let ghost parts_v = parts@;
        individual.append(&mut parts);
        i = i + 1;
        proof {
            let pre = fs.subrange(0, i as int);
            assert(pre.subrange(0, pre.len() - 1) =~= fs.subrange(0, i - 1));
            assert(pre[pre.len() - 1] == frames@[i - 1]@);
            assert(frames_model(individual@) =~= frames_model(before) + frames_model(parts_v));
        }
    }
    proof {
        assert(fs.subrange(0, frames@.len() as int) =~= fs);
    }
    individual
}

/// Receives the messages of a scene from a sender and says what the local
/// scene is to do with them.
pub struct SceneReceiver {
    enabled: bool,
    last_sequence: u64,
    config: TransportConfig,
    last_connect_attempt: Option<u64>,
}

impl View for SceneReceiver {
    type V = ReceiverModel;

    closed spec fn view(&self) -> ReceiverModel {
        ReceiverModel {
            enabled: self.enabled,
            last_sequence: self.last_sequence,
            auto_reconnect: self.config.auto_reconnect,
            reconnect_delay_ms: self.config.reconnect_delay_ms,
            last_connect_attempt: self.last_connect_attempt,
        }
    }
}

impl SceneReceiver {
    /// The configuration the receiver was made with.
    pub closed spec fn spec_config(&self) -> TransportConfig {
        self.config
    }

    /// A receiver without a transport that has seen no frame.
    pub fn new(config: TransportConfig) -> (r: Self)
        ensures
            r@ == (ReceiverModel {
                enabled: false,
                last_sequence: 0,
                auto_reconnect: config.auto_reconnect,
                reconnect_delay_ms: config.reconnect_delay_ms,
                last_connect_attempt: None,
            }),
            r.spec_config() == config,
    {
        SceneReceiver { enabled: false, last_sequence: 0, config, last_connect_attempt: None }
    }

    /// The configuration the receiver was made with.
    pub fn config(&self) -> (r: &TransportConfig)
        ensures
            *r == self.spec_config(),
    {
        &self.config
    }

    /// Records that a transport has been set.
    pub fn set_transport(&mut self)
        ensures
            final(self)@ == (ReceiverModel { enabled: true, ..old(self)@ }),
            final(self).spec_config() == old(self).spec_config(),
    {
        self.enabled = true;
    }

    /// Whether a transport is set.
    pub fn is_enabled(&self) -> (r: bool)
        ensures
            r == self@.enabled,
    {
        self.enabled
    }

    /// The sequence number of the last frame processed.
    pub fn last_sequence(&self) -> (r: u64)
        ensures
            r == self@.last_sequence,
    {
        self.last_sequence
    }

    /// Whether a connection attempt is due: only with automatic reconnection,
    /// while not connected, and once the reconnection delay has passed.
    pub fn should_attempt_reconnect(&self, connected: bool, now_ms: u64) -> (r: bool)
        ensures
            r == (self@.auto_reconnect && reconnect_due(
                connected,
                self@.last_connect_attempt,
                now_ms,
                self@.reconnect_delay_ms,
            )),
    {
        if !self.config.auto_reconnect {
            return false;
        }
        if connected {
            return false;
        }
        match self.last_connect_attempt {
            None => true,
            Some(last) => {
                let elapsed: u64 = if now_ms >= last { now_ms - last } else { 0 };
                elapsed >= self.config.reconnect_delay_ms
            },
        }
    }

    /// Decides whether to connect to the sender now; when so, the attempt is
    /// recorded at `now_ms` and the caller makes it. When not, the attempt
    /// fails with `NotConnected`.
    pub fn begin_connect_attempt(&mut self, connected: bool, now_ms: u64) -> (r: bool)
        ensures
            r == (old(self)@.auto_reconnect && reconnect_due(
                connected,
                old(self)@.last_connect_attempt,
                now_ms,
                old(self)@.reconnect_delay_ms,
            )),
            final(self)@ == (if r {
                ReceiverModel { last_connect_attempt: Some(now_ms), ..old(self)@ }
            } else {
                old(self)@
            }),
            final(self).spec_config() == old(self).spec_config(),
    {
        let due = self.should_attempt_reconnect(connected, now_ms);
        if due {
            self.last_connect_attempt = Some(now_ms);
        }
        due
    }

    /// How draining the transport starts: without a transport nothing is
    /// read and no frame is taken (`Done`); else reads follow (`More`), each
    /// taken in by `accept_received`.
    pub fn begin_receive(&self) -> (r: ReceiveStep)
        ensures
            step_model(r) == (if self@.enabled { StepModel::More } else { StepModel::Done }),
    {
        if self.enabled {
            ReceiveStep::More
        } else {
            ReceiveStep::Done
        }
    }

    /// Takes in what one read of the transport gave while draining it into
    /// `frames`: a frame is kept, and draining stops once the transport has no
    /// frame ready, once [`MAX_PENDING_FRAMES`] frames are held, or at an
    /// error; a closed connection also drops the transport, so that it can be
    /// made again.
    pub fn accept_received(
        &mut self,
        frames: &mut Vec<MessageFrame>,
        result: Result<Option<MessageFrame>, TransportError>,
    ) -> (r: ReceiveStep)
        ensures
            match result {
                Ok(Some(f)) => {
                    &&& final(frames)@ == old(frames)@.push(f)
                    &&& final(self)@ == old(self)@
                    &&& (if final(frames)@.len() >= MAX_PENDING_FRAMES { r is Done } else { r is More })
                },
                Ok(None) => final(frames)@ == old(frames)@ && final(self)@ == old(self)@ && r is Done,
                Err(TransportError::ConnectionClosed) => {
                    &&& final(frames)@ == old(frames)@
                    &&& final(self)@ == (ReceiverModel { enabled: false, ..old(self)@ })
                    &&& r matches ReceiveStep::Failed(TransportError::ConnectionClosed)
                },
                Err(e) => {
                    &&& final(frames)@ == old(frames)@
                    &&& final(self)@ == old(self)@
                    &&& r == ReceiveStep::Failed(e)
                },
            },
            (frames_model(final(frames)@), step_model(r)) == receive_step(frames_model(old(frames)@), read_model(result)),
            final(self).spec_config() == old(self).spec_config(),
    {
        let ghost before = frames@;
        match result {
            Ok(Some(f)) => {
                let ghost g = f@;
                frames.push(f);
                proof {
                    assert(frames_model(frames@) =~= frames_model(before).push(g));
                }
                if frames.len() >= MAX_PENDING_FRAMES {
                    ReceiveStep::Done
                } else {
                    ReceiveStep::More
                }
            },
            Ok(None) => ReceiveStep::Done,
            Err(TransportError::ConnectionClosed) => {
                self.enabled = false;
                ReceiveStep::Failed(TransportError::ConnectionClosed)
            },
            Err(e) => ReceiveStep::Failed(e),
        }
    }

    /// Processes one frame against a scene whose entities have the names
    /// `names`: reports a break in the sequence numbers, remembers the
    /// frame's number, and says what the message asks of the scene.
    pub fn process_frame(&mut self, frame: &MessageFrame, names: &Vec<String>) -> (r: FrameReport)
        requires
            frame.sequence > 0 ==> old(self)@.last_sequence < u64::MAX,
        ensures
            r@ == (ReportModel {
                gap: sequence_gap(old(self)@.last_sequence, frame.sequence),
                actions: plan(frame.message@, names_model(names@)),
            }),
            frame.sequence > 0 && frame.sequence != old(self)@.last_sequence + 1 ==> r.gap == Some(
                (old(self)@.last_sequence + 1) as u64,
            ),
            frame.sequence == 0 || frame.sequence == old(self)@.last_sequence + 1 ==> r.gap is None,
            final(self)@ == (ReceiverModel { last_sequence: frame.sequence, ..old(self)@ }),
            final(self).spec_config() == old(self).spec_config(),
    {
        let gap = if frame.sequence > 0 && frame.sequence != self.last_sequence + 1 {
            Some(self.last_sequence + 1)
        } else {
            None
        };
        self.last_sequence = frame.sequence;
        let actions = plan_message(&frame.message, names);
        FrameReport { gap, actions }
    }

    /// Processes received frames the way the receiving system of a viewer
    /// does: every frame is taken apart into its single messages, and these
    /// are processed one by one against the scene, whose names `names` gain
    /// the name of each entity spawned on the way. Each single message is
    /// checked to follow the one before it, so those of a batch after its
    /// first, which carry the batch's number again, are reported as breaks.
    /// One report per single message, in order.
    pub fn process_frames(&mut self, frames: &Vec<MessageFrame>, names: &mut Vec<String>) -> (r: Vec<FrameReport>)
        requires
            overflow_free(old(self)@.last_sequence, all_individual(frames_model(frames@))),
        ensures
            ({
                let (l, reps, n) = process_all(
                    old(self)@.last_sequence,
                    all_individual(frames_model(frames@)),
                    names_model(old(names)@),
                );
                &&& reports_model(r@) == reps
                &&& names_model(final(names)@) == n
                &&& final(self)@ == (ReceiverModel { last_sequence: l, ..old(self)@ })
            }),
            final(self).spec_config() == old(self).spec_config(),
    {
        let individual = individual_frames_of(frames);
        let ghost ind = frames_model(individual@);
        let ghost n0 = names_model(names@);
        let ghost l0 = self.last_sequence;
        let mut out: Vec<FrameReport> = Vec::new();
        let mut j: usize = 0;
        proof {
            assert(ind.subrange(0, ind.len() as int) =~= ind);
            let (l, r, n) = process_all(l0, ind, n0);
            assert(reports_model(out@) + r =~= r);
        }
        while j < individual.len()
            invariant
                j <= individual@.len(),
                ind == frames_model(individual@),
                overflow_free(self@.last_sequence, ind.subrange(j as int, ind.len() as int)),
                self@.enabled == old(self)@.enabled,
                self@.auto_reconnect == old(self)@.auto_reconnect,
                self@.reconnect_delay_ms == old(self)@.reconnect_delay_ms,
                self@.last_connect_attempt == old(self)@.last_connect_attempt,
                self.spec_config() == old(self).spec_config(),
                process_all(l0, ind, n0) == ({
                    let (l, r, n) = process_all(
                        self@.last_sequence,
                        ind.subrange(j as int, ind.len() as int),
                        names_model(names@),
                    );
                    (l, reports_model(out@) + r, n)
                }),
            decreases individual@.len() - j,
        {
            let ghost last = self@.last_sequence;
            let ghost cur_names = names_model(names@);
            let ghost rest = ind.subrange(j as int, ind.len() as int);
            let ghost before = out@;
            proof {
                assert(rest[0] == ind[j as int]);
                assert(rest.subrange(1, rest.len() as int) =~= ind.subrange(j + 1, ind.len() as int));
            }
            let report = self.process_frame(&individual[j], names);
            let ghost rep = report@;
            match &individual[j].message {
                SceneMessage::EntitySpawn { entity_name, .. } => {
                    if report.actions.len() == 1 {
                        match &report.actions[0] {
                            ReceiverAction::Spawn { .. } => {
                                names.push(entity_name.clone());
                            },
                            _ => {},
                        }
                    }
                },
                _ => {},
            }
            out.push(report);
            j = j + 1;
            proof {
                let f = ind[j - 1];
                assert(rest[0] == f);
                assert(rest.subrange(1, rest.len() as int) =~= ind.subrange(j as int, ind.len() as int));
                assert(names_model(names@) =~= names_after(cur_names, f.message, rep.actions));
                assert(reports_model(out@) =~= reports_model(before) + seq![rep]);
                let (l, r, n) = process_all(f.sequence, ind.subrange(j as int, ind.len() as int), names_model(names@));
                assert(reports_model(before) + (seq![rep] + r) =~= reports_model(out@) + r);
            }
        }
        proof {
            assert(ind.subrange(ind.len() as int, ind.len() as int) =~= Seq::<FrameModel>::empty());
            assert(reports_model(out@) + Seq::<ReportModel>::empty() =~= reports_model(out@));
        }
        out
    }

    /// Whether `process_frames` on these frames would need the number after
    /// `u64::MAX`; it may be called only where this is false.
    pub fn sequence_overflows(&self, frames: &Vec<MessageFrame>) -> (r: bool)
        ensures
            r == !overflow_free(self@.last_sequence, all_individual(frames_model(frames@))),
    {
        let individual = individual_frames_of(frames);
        let ghost ind = frames_model(individual@);
        let mut last = self.last_sequence;
        let mut j: usize = 0;
        proof {
            assert(ind.subrange(0, ind.len() as int) =~= ind);
        }
        while j < individual.len()
            invariant
                j <= individual@.len(),
                ind == frames_model(individual@),
                ind == all_individual(frames_model(frames@)),
                overflow_free(self@.last_sequence, ind) == overflow_free(last, ind.subrange(j as int, ind.len() as int)),
                j > 0 ==> last == ind[j - 1].sequence,
                j == 0 ==> last == self@.last_sequence,
            decreases individual@.len() - j,
        {
            let ghost rest = ind.subrange(j as int, ind.len() as int);
            proof {
                assert(rest[0] == ind[j as int]);
                assert(rest.subrange(1, rest.len() as int) =~= ind.subrange(j + 1, ind.len() as int));
            }
            let seq = individual[j].sequence;
            if seq > 0 && last == u64::MAX {
                proof {
                    assert(!overflow_free(last, rest));
                }
                return true;
            }
            last = seq;
            j = j + 1;
        }
        proof {
            assert(ind.subrange(ind.len() as int, ind.len() as int) =~= Seq::<FrameModel>::empty());
        }
        false
    }
}

} // verus!

//! The `/v1` contract: the state a load goes through, what each request does
//! to it, and what each is answered.

use vstd::prelude::*;
use vstd::utf8::encode_utf8;

use crate::files::{join, joined};
use crate::text::{concat, same_text};

verus! {

/// The one provider this backend implements: the routing class every one of
/// its models declares.
pub const PROVIDER: &'static str = "local_voxtral";

/// The sample rate a transcription is taken to be in when it names none.
pub const DEFAULT_SAMPLE_RATE: u32 = 16_000;

/// How far the backend has got with its model.
#[derive(Debug, Clone, Copy, PartialEq, Eq, Structural)]
pub enum LoadState {
    Starting,
    Loading,
    Ready,
    Error,
}

impl LoadState {
    /// The state's name on the wire.
    pub open spec fn wire(self) -> Seq<char> {
        match self {
            LoadState::Starting => "starting"@,
            LoadState::Loading => "loading"@,
            LoadState::Ready => "ready"@,
            LoadState::Error => "error"@,
        }
    }

    /// The state's name on the wire.
    pub fn as_str(self) -> (res: &'static str)
        ensures
            res@ == self.wire(),
    {
        match self {
            LoadState::Starting => "starting",
            LoadState::Loading => "loading",
            LoadState::Ready => "ready",
            LoadState::Error => "error",
        }
    }
}

/// Which kind of load is running.
#[derive(Debug, Clone, Copy, PartialEq, Eq, Structural)]
pub enum Phase {
    /// The first load of a model by this build, which compiles its kernels.
    InitialSetup,
    /// Any load after it.
    Loading,
}

impl Phase {
    /// The phase's name on the wire.
    pub open spec fn wire(self) -> Seq<char> {
        match self {
            Phase::InitialSetup => "initial_setup"@,
            Phase::Loading => "loading"@,
        }
    }

    /// The phase's name on the wire.
    pub fn as_str(self) -> (res: &'static str)
        ensures
            res@ == self.wire(),
    {
        match self {
            Phase::InitialSetup => "initial_setup",
            Phase::Loading => "loading",
        }
    }
}

/// What a load is doing.
#[derive(Debug, Clone, Copy, PartialEq, Eq, Structural)]
pub enum Step {
    LoadingWeights,
    BuildingKernels,
    WarmingUp,
}

impl Step {
    /// The step's name on the wire.
    pub open spec fn wire(self) -> Seq<char> {
        match self {
            Step::LoadingWeights => "loading_weights"@,
            Step::BuildingKernels => "building_kernels"@,
            Step::WarmingUp => "warming_up"@,
        }
    }

    /// The step's name on the wire.
    pub fn as_str(self) -> (res: &'static str)
        ensures
            res@ == self.wire(),
    {
        match self {
            Step::LoadingWeights => "loading_weights",
            Step::BuildingKernels => "building_kernels",
            Step::WarmingUp => "warming_up",
        }
    }
}

/// How far a load has got.
#[derive(Debug, Clone, Copy, PartialEq, Eq, Structural)]
pub struct Report {
    pub phase: Option<Phase>,
    pub step: Option<Step>,
    /// The fraction done, as the bits of an IEEE 754 double.
    pub progress: Option<u64>,
}

impl Report {
    /// The report of a load that has not said anything yet.
    pub open spec fn nothing() -> Report {
        Report { phase: None, step: None, progress: None }
    }
}

impl Default for Report {
    fn default() -> (res: Self)
        ensures
            res == Report::nothing(),
    {
        Report { phase: None, step: None, progress: None }
    }
}

/// What `GET /v1/status` reports.
#[derive(Debug, Clone)]
pub struct Status {
    pub state: LoadState,
    pub model: Option<String>,
    pub device: Option<String>,
    pub reason: Option<String>,
    /// How far a load has got; reported only while `state` is `Loading`.
    pub load: Report,
}

/// A `Status` with its texts as sequences of characters.
pub struct StatusView {
    pub state: LoadState,
    pub model: Option<Seq<char>>,
    pub device: Option<Seq<char>>,
    pub reason: Option<Seq<char>>,
    pub load: Report,
}

/// The characters of a text that may be absent.
pub open spec fn chars(text: Option<String>) -> Option<Seq<char>> {
    match text {
        Some(s) => Some(s@),
        None => None,
    }
}

impl View for Status {
    type V = StatusView;

    open spec fn view(&self) -> StatusView {
        StatusView {
            state: self.state,
            model: chars(self.model),
            device: chars(self.device),
            reason: chars(self.reason),
            load: self.load,
        }
    }
}

impl Default for Status {
    /// The status of a backend that was asked for nothing yet.
    fn default() -> (res: Self)
        ensures
            res@ == (StatusView {
                state: LoadState::Starting,
                model: None,
                device: None,
                reason: None,
                load: Report::nothing(),
            }),
    {
        Status {
            state: LoadState::Starting,
            model: None,
            device: None,
            reason: None,
            load: Report::default(),
        }
    }
}

/// A value in the body of a reply.
#[derive(Debug, Clone)]
pub enum Field {
    Text(String),
    /// A model's identity: its name and its provider.
    Model { name: String, provider: String },
    /// A number, as the bits of an IEEE 754 double.
    Number(u64),
}

/// A `Field` with its texts as sequences of characters.
pub enum FieldView {
    Text(Seq<char>),
    Model { name: Seq<char>, provider: Seq<char> },
    Number(u64),
}

impl View for Field {
    type V = FieldView;

    open spec fn view(&self) -> FieldView {
        match *self {
            Field::Text(s) => FieldView::Text(s@),
            Field::Model { name, provider } => FieldView::Model {
                name: name@,
                provider: provider@,
            },
            Field::Number(bits) => FieldView::Number(bits),
        }
    }
}

/// What a request is answered: an HTTP status code and the members of a JSON
/// object.
#[derive(Debug, Clone)]
pub struct Reply {
    pub code: u16,
    pub body: Vec<(String, Field)>,
}

/// The members of a reply's body.
pub type BodyView = Seq<(Seq<char>, FieldView)>;

/// A `Reply` with its texts as sequences of characters.
pub struct ReplyView {
    pub code: u16,
    pub body: BodyView,
}

/// The members of `body`.
pub open spec fn body_view(body: Seq<(String, Field)>) -> BodyView {
    Seq::new(body.len(), |i: int| (body[i].0@, body[i].1@))
}

impl View for Reply {
    type V = ReplyView;

    open spec fn view(&self) -> ReplyView {
        ReplyView { code: self.code, body: body_view(self.body@) }
    }
}

/// A member whose value is a text.
pub open spec fn text_member(key: Seq<char>, value: Seq<char>) -> (Seq<char>, FieldView) {
    (key, FieldView::Text(value))
}

/// The reply of a request that did what it was asked to.
pub open spec fn success(code: u16, key: Seq<char>, value: Seq<char>) -> ReplyView {
    ReplyView {
        code,
        body: seq![text_member("status"@, "success"@), text_member(key, value)],
    }
}

/// The reply of a request that was refused for the reason `message`.
pub open spec fn refusal(code: u16, message: Seq<char>) -> ReplyView {
    ReplyView {
        code,
        body: seq![text_member("status"@, "error"@), text_member("message"@, message)],
    }
}

/// Appends a member to `body`.
fn put(body: &mut Vec<(String, Field)>, key: &str, field: Field)
    ensures
        body_view(final(body)@) == body_view(old(body)@).push((key@, field@)),
{
    let ghost before = body@;
    body.push((key.to_string(), field));
    assert(body_view(body@) =~= body_view(before).push((key@, field@)));
}

/// Appends a member whose value is a text to `body`.
fn put_text(body: &mut Vec<(String, Field)>, key: &str, value: &str)
    ensures
        body_view(final(body)@) == body_view(old(body)@).push(text_member(key@, value@)),
{
    put(body, key, Field::Text(value.to_string()));
}

/// The reply of a request that did what it was asked to.
fn succeeded(code: u16, key: &str, value: &str) -> (res: Reply)
    ensures
        res@ == success(code, key@, value@),
{
    let mut body: Vec<(String, Field)> = Vec::new();
    put_text(&mut body, "status", "success");
    put_text(&mut body, key, value);
    assert(body_view(body@) =~= success(code, key@, value@).body);
    Reply { code, body }
}

/// The reply of a request that was refused for the reason `message`.
fn refused(code: u16, message: &str) -> (res: Reply)
    ensures
        res@ == refusal(code, message@),
{
    let mut body: Vec<(String, Field)> = Vec::new();
    put_text(&mut body, "status", "error");
    put_text(&mut body, "message", message);
    assert(body_view(body@) =~= refusal(code, message@).body);
    Reply { code, body }
}

/// `GET /v1/ping`.
pub fn ping() -> (res: Reply)
    ensures
        res@ == success(200, "message"@, "pong"@),
{
    succeeded(200, "message", "pong")
}

/// `POST /v1/cancel`: acknowledged, and nothing else.
pub fn cancel() -> (res: Reply)
    ensures
        res@ == success(200, "message"@, "Cancelled"@),
{
    succeeded(200, "message", "Cancelled")
}

/// The member `key`, when its value is there.
pub open spec fn optional(key: Seq<char>, value: Option<FieldView>) -> BodyView {
    match value {
        Some(v) => seq![(key, v)],
        None => seq![],
    }
}

/// The member `key`, when its text is there.
pub open spec fn optional_text(key: Seq<char>, value: Option<Seq<char>>) -> BodyView {
    match value {
        Some(s) => seq![text_member(key, s)],
        None => seq![],
    }
}

/// The members that tell how far a load has got.
pub open spec fn load_members(load: Report) -> BodyView {
    optional_text("phase"@, match load.phase {
        Some(phase) => Some(phase.wire()),
        None => None,
    }) + optional_text("step"@, match load.step {
        Some(step) => Some(step.wire()),
        None => None,
    }) + optional("progress"@, match load.progress {
        Some(bits) => Some(FieldView::Number(bits)),
        None => None,
    })
}

/// The identity of the model `name`: this backend's provider is fixed, so it
/// stands alongside the name.
pub open spec fn identity(name: Option<Seq<char>>) -> Option<FieldView> {
    match name {
        Some(name) => Some(FieldView::Model { name, provider: PROVIDER@ }),
        None => None,
    }
}

/// The body of `GET /v1/status`.
pub open spec fn status_body(st: StatusView) -> BodyView {
    let always = seq![
        text_member("status"@, "success"@),
        text_member("state"@, st.state.wire()),
    ];
    let load = if st.state == LoadState::Loading {
        load_members(st.load)
    } else {
        seq![]
    };
    always + optional("model"@, identity(st.model)) + optional_text("device"@, st.device)
        + optional_text("reason"@, st.reason) + load
}

/// Appends a member whose value is a text to `body`, when the text is there.
fn put_optional_text(body: &mut Vec<(String, Field)>, key: &str, value: &Option<String>)
    ensures
        body_view(final(body)@) == body_view(old(body)@) + optional_text(key@, chars(*value)),
{
    let ghost before = body_view(body@);
    if let Some(text) = value {
        put_text(body, key, text);
    }
    assert(body_view(body@) =~= before + optional_text(key@, chars(*value)));
}

/// Appends the model's identity to `body`, when there is a model.
fn put_model(body: &mut Vec<(String, Field)>, model: &Option<String>)
    ensures
        body_view(final(body)@) == body_view(old(body)@) + optional(
            "model"@,
            identity(chars(*model)),
        ),
{
    let ghost before = body_view(body@);
    if let Some(name) = model {
        put(body, "model", Field::Model { name: name.clone(), provider: PROVIDER.to_string() });
    }
    assert(body_view(body@) =~= before + optional("model"@, identity(chars(*model))));
}

/// Appends the members that tell how far a load has got.
fn put_load(body: &mut Vec<(String, Field)>, load: Report)
    ensures
        body_view(final(body)@) == body_view(old(body)@) + load_members(load),
{
    let ghost before = body_view(body@);
    if let Some(phase) = load.phase {
        put_text(body, "phase", phase.as_str());
    }
    if let Some(step) = load.step {
        put_text(body, "step", step.as_str());
    }
    if let Some(bits) = load.progress {
        put(body, "progress", Field::Number(bits));
    }
    assert(body_view(body@) =~= before + load_members(load));
}

/// `GET /v1/status`: the state, whatever else is known, and while a load is
/// running how far it has got.
pub fn get_status(st: &Status) -> (res: Reply)
    ensures
        res@ == (ReplyView { code: 200, body: status_body(st@) }),
{
    let mut body: Vec<(String, Field)> = Vec::new();
    put_text(&mut body, "status", "success");
    put_text(&mut body, "state", st.state.as_str());
    assert(body_view(body@) =~= seq![
        text_member("status"@, "success"@),
        text_member("state"@, st.state.wire()),
    ]);
    put_model(&mut body, &st.model);
    put_optional_text(&mut body, "device", &st.device);
    put_optional_text(&mut body, "reason", &st.reason);
    let ghost known = body_view(body@);
    if st.state == LoadState::Loading {
        put_load(&mut body, st.load);
    } else {
        assert(known + seq![] =~= known);
    }
    Reply { code: 200, body }
}

/// What `POST /v1/load` asks for.
#[derive(Debug, Clone)]
pub struct LoadReq {
    pub name: String,
    pub provider: Option<String>,
    pub device: Option<String>,
}

/// A load that was accepted: what to load, and the device it was asked for.
#[derive(Debug, Clone)]
pub struct LoadJob {
    pub dir: Vec<u8>,
    pub device: Option<String>,
}

/// Whether a load naming this provider is one this backend implements.
pub open spec fn serves(provider: Option<Seq<char>>) -> bool {
    match provider {
        Some(p) => p == PROVIDER@,
        None => true,
    }
}

/// The status right after a load of the model `name` was accepted.
pub open spec fn started(name: Seq<char>) -> StatusView {
    StatusView {
        state: LoadState::Loading,
        model: Some(name),
        device: None,
        reason: None,
        load: Report::nothing(),
    }
}

/// Where the models of the backend in `backend_dir` are, and `name` among them.
pub open spec fn model_dir(backend_dir: Seq<u8>, name: Seq<char>) -> Seq<u8> {
    join(join(backend_dir, encode_utf8("models"@)), encode_utf8(name))
}

/// `POST /v1/load`. A provider this backend does not implement is the client's
/// error, and so is a load while another one runs; otherwise the load starts,
/// and the status says so before the reply goes out.
pub fn load(st: &mut Status, backend_dir: &[u8], req: &LoadReq) -> (res: (Reply, Option<LoadJob>))
    ensures
        if !serves(chars(req.provider)) {
            &&& res.0@ == refusal(400, "invalid_model"@)
            &&& res.1 is None
            &&& *final(st) == *old(st)
        } else if old(st).state == LoadState::Loading {
            &&& res.0@ == refusal(409, "already_loading"@)
            &&& res.1 is None
            &&& *final(st) == *old(st)
        } else {
            &&& res.0@ == success(202, "message"@, "Loading started"@)
            &&& res.1 matches Some(job)
            &&& job.dir@ == model_dir(backend_dir@, req.name@)
            &&& chars(job.device) == chars(req.device)
            &&& final(st)@ == started(req.name@)
        },
{
    if let Some(provider) = &req.provider {
        if !same_text(provider, PROVIDER) {
            return (refused(400, "invalid_model"), None);
        }
    }
    if st.state == LoadState::Loading {
        return (refused(409, "already_loading"), None);
    }
    st.state = LoadState::Loading;
    st.model = Some(req.name.clone());
    st.device = None;
    st.reason = None;
    st.load = Report::default();
    let models = joined(backend_dir, "models".as_bytes());
    let device = match &req.device {
        Some(device) => Some(device.clone()),
        None => None,
    };
    let job = LoadJob { dir: joined(&models, req.name.as_str().as_bytes()), device };
    (succeeded(202, "message", "Loading started"), Some(job))
}

/// The status after a running load reported `load`. A report that comes late
/// is dropped.
pub open spec fn after_report(st: StatusView, load: Report) -> StatusView {
    if st.state == LoadState::Loading {
        StatusView { load, ..st }
    } else {
        st
    }
}

/// Records how far a load has got.
pub fn report(st: &mut Status, load: Report)
    ensures
        final(st)@ == after_report(old(st)@, load),
{
    if st.state == LoadState::Loading {
        st.load = load;
    }
}

/// How a load ended.
#[derive(Debug, Clone)]
pub enum LoadOutcome {
    /// On the device of this name.
    Loaded(String),
    /// With this error.
    Failed(String),
    /// In a panic with this message.
    Panicked(String),
}

/// A `LoadOutcome` with its text as a sequence of characters.
pub enum LoadOutcomeView {
    Loaded(Seq<char>),
    Failed(Seq<char>),
    Panicked(Seq<char>),
}

impl View for LoadOutcome {
    type V = LoadOutcomeView;

    open spec fn view(&self) -> LoadOutcomeView {
        match *self {
            LoadOutcome::Loaded(label) => LoadOutcomeView::Loaded(label@),
            LoadOutcome::Failed(error) => LoadOutcomeView::Failed(error@),
            LoadOutcome::Panicked(message) => LoadOutcomeView::Panicked(message@),
        }
    }
}

/// The status after a load ended in `outcome`.
pub open spec fn after_load(st: StatusView, outcome: LoadOutcomeView) -> StatusView {
    match outcome {
        LoadOutcomeView::Loaded(label) => StatusView {
            state: LoadState::Ready,
            device: Some(label),
            ..st
        },
        LoadOutcomeView::Failed(error) => StatusView {
            state: LoadState::Error,
            reason: Some(error),
            ..st
        },
        LoadOutcomeView::Panicked(message) => StatusView {
            state: LoadState::Error,
            reason: Some("load task panicked: "@ + message),
            ..st
        },
    }
}

/// Records how a load ended.
pub fn finish_load(st: &mut Status, outcome: &LoadOutcome)
    ensures
        final(st)@ == after_load(old(st)@, outcome@),
{
    match outcome {
        LoadOutcome::Loaded(label) => {
            st.device = Some(label.clone());
            st.state = LoadState::Ready;
        },
        LoadOutcome::Failed(error) => {
            st.state = LoadState::Error;
            st.reason = Some(error.clone());
        },
        LoadOutcome::Panicked(message) => {
            st.state = LoadState::Error;
            st.reason = Some(concat("load task panicked: ", message));
        },
    }
}

/// How a load ended, with the engine it gave.
pub enum Ending<E> {
    /// With an engine, on the device of this name.
    Loaded(E, Seq<char>),
    /// With this error.
    Failed(Seq<char>),
    /// In a panic with this message.
    Panicked(Seq<char>),
}

impl<E> Ending<E> {
    /// What the status is told of it.
    pub open spec fn outcome(self) -> LoadOutcomeView {
        match self {
            Ending::Loaded(_, label) => LoadOutcomeView::Loaded(label),
            Ending::Failed(error) => LoadOutcomeView::Failed(error),
            Ending::Panicked(message) => LoadOutcomeView::Panicked(message),
        }
    }

    /// What the engine's slot holds after it: it was cleared before anything
    /// could panic, and only an engine is put there.
    pub open spec fn slot(self) -> Option<E> {
        match self {
            Ending::Loaded(engine, _) => Some(engine),
            _ => None,
        }
    }
}

/// How a load that did not panic ended.
pub open spec fn ending_of<E>(loaded: Result<(E, String), String>) -> Ending<E> {
    match loaded {
        Ok((engine, label)) => Ending::Loaded(engine, label@),
        Err(e) => Ending::Failed(e@),
    }
}

/// Empties the engine's slot when a load begins: the previous model goes first,
/// so its memory is back before the new one asks for any. A load that panics
/// leaves it so.
pub fn clear_engine<E>(slot: &mut Option<E>)
    ensures
        *final(slot) is None,
        forall|message: Seq<char>|
            *final(slot) == #[trigger] Ending::<E>::Panicked(message).slot(),
{
    *slot = None;
}

/// Puts the engine a load gave into its slot, with the name of its device told,
/// or tells why there is none.
pub fn settle_load<E>(slot: &mut Option<E>, loaded: Result<(E, String), String>) -> (res:
    LoadOutcome)
    ensures
        *final(slot) == ending_of(loaded).slot(),
        res@ == ending_of(loaded).outcome(),
{
    match loaded {
        Ok((engine, label)) => {
            *slot = Some(engine);
            LoadOutcome::Loaded(label)
        },
        Err(e) => {
            *slot = None;
            LoadOutcome::Failed(e)
        },
    }
}

/// A transcription that was accepted: the rate its samples are taken to be in.
#[derive(Debug, Clone, Copy, PartialEq, Eq, Structural)]
pub struct TranscribeJob {
    pub sample_rate: u32,
}

/// `POST /v1/transcribe`, before the engine is asked: a clip of `samples`
/// samples. Without a model that is ready there is a conflict, and an empty
/// clip is the client's error.
pub fn transcribe(st: &Status, samples: usize, sample_rate: Option<u32>) -> (res: Result<
    TranscribeJob,
    Reply,
>)
    ensures
        match res {
            Ok(job) => {
                &&& st.state == LoadState::Ready
                &&& samples > 0
                &&& job.sample_rate == match sample_rate {
                    Some(rate) => rate,
                    None => DEFAULT_SAMPLE_RATE,
                }
            },
            Err(reply) => if st.state != LoadState::Ready {
                reply@ == refusal(409, "not_ready"@)
            } else {
                samples == 0 && reply@ == refusal(400, "invalid_audio"@)
            },
        },
{
    if st.state != LoadState::Ready {
        return Err(refused(409, "not_ready"));
    }
    if samples == 0 {
        return Err(refused(400, "invalid_audio"));
    }
    Ok(TranscribeJob { sample_rate: sample_rate.unwrap_or(DEFAULT_SAMPLE_RATE) })
}

/// How a transcription ended.
#[derive(Debug, Clone)]
pub enum Outcome {
    /// With this transcript.
    Transcribed(String),
    /// With this error.
    Failed(String),
    /// There was no engine to run it on.
    NotLoaded,
    /// In a panic with this message.
    Panicked(String),
    /// Without a reply, and without a panic that would explain it.
    Silent,
}

/// An `Outcome` with its text as a sequence of characters.
pub enum OutcomeView {
    Transcribed(Seq<char>),
    Failed(Seq<char>),
    NotLoaded,
    Panicked(Seq<char>),
    Silent,
}

impl View for Outcome {
    type V = OutcomeView;

    open spec fn view(&self) -> OutcomeView {
        match *self {
            Outcome::Transcribed(text) => OutcomeView::Transcribed(text@),
            Outcome::Failed(error) => OutcomeView::Failed(error@),
            Outcome::NotLoaded => OutcomeView::NotLoaded,
            Outcome::Panicked(message) => OutcomeView::Panicked(message@),
            Outcome::Silent => OutcomeView::Silent,
        }
    }
}

/// The reply of a transcription that failed for the reason `detail`.
pub open spec fn inference_failure(detail: Seq<char>) -> ReplyView {
    ReplyView {
        code: 500,
        body: seq![
            text_member("status"@, "error"@),
            text_member("message"@, "inference_failed"@),
            text_member("detail"@, detail),
        ],
    }
}

/// What a transcription that ended in `outcome` is answered: its transcript,
/// or `inference_failed` with the reason.
pub open spec fn transcription(outcome: OutcomeView) -> ReplyView {
    match outcome {
        OutcomeView::Transcribed(text) => success(200, "transcription"@, text),
        OutcomeView::Failed(error) => inference_failure(error),
        OutcomeView::NotLoaded => inference_failure("engine not loaded"@),
        OutcomeView::Panicked(message) => inference_failure("panicked: "@ + message),
        OutcomeView::Silent => inference_failure("the transcription ended without a reply"@),
    }
}

/// The reply of a transcription that failed for the reason `detail`.
fn inference_failed(detail: &str) -> (res: Reply)
    ensures
        res@ == inference_failure(detail@),
{
    let mut body: Vec<(String, Field)> = Vec::new();
    put_text(&mut body, "status", "error");
    put_text(&mut body, "message", "inference_failed");
    put_text(&mut body, "detail", detail);
    assert(body_view(body@) =~= inference_failure(detail@).body);
    Reply { code: 500, body }
}

/// `POST /v1/transcribe`, once the engine is done: the transcript, or
/// `inference_failed` with the reason.
pub fn transcription_reply(outcome: &Outcome) -> (res: Reply)
    ensures
        res@ == transcription(outcome@),
{
    match outcome {
        Outcome::Transcribed(text) => succeeded(200, "transcription", text),
        Outcome::Failed(error) => inference_failed(error),
        Outcome::NotLoaded => inference_failed("engine not loaded"),
        Outcome::Panicked(message) => inference_failed(&concat("panicked: ", message)),
        Outcome::Silent => inference_failed("the transcription ended without a reply"),
    }
}

/// Whether `body` has a member `key`.
pub open spec fn has_member(body: BodyView, key: Seq<char>) -> bool {
    exists|i: int| 0 <= i < body.len() && (#[trigger] body[i]).0 == key
}

/// Outside a load, the status says nothing of how far one has got.
pub proof fn law_progress_is_reported_only_while_loading(st: StatusView)
    requires
        st.state != LoadState::Loading,
    ensures
        !has_member(status_body(st), "phase"@),
        !has_member(status_body(st), "step"@),
        !has_member(status_body(st), "progress"@),
{
    reveal_strlit("status");
    reveal_strlit("state");
    reveal_strlit("model");
    reveal_strlit("device");
    reveal_strlit("reason");
    reveal_strlit("phase");
    reveal_strlit("step");
    reveal_strlit("progress");
    let body = status_body(st);
    assert forall|i: int| 0 <= i < body.len() implies (#[trigger] body[i]).0 != "phase"@
        && body[i].0 != "step"@ && body[i].0 != "progress"@ by {
        let key = body[i].0;
        assert(key == "status"@ || key == "state"@ || key == "model"@ || key == "device"@ || key
            == "reason"@);
        assert("state"@[1] == 't' && "phase"@[1] == 'h' && "model"@[1] == 'o');
        assert("status"@[0] == 's' && "device"@[0] == 'd' && "reason"@[0] == 'r');
    }
}

/// Every load that ends leaves the backend ready or in error, on the model it
/// was started for, whatever it reported on the way.
pub proof fn law_every_load_ends(name: Seq<char>, reports: Seq<Report>, outcome: LoadOutcomeView)
    ensures
        ({
            let st = after_load(
                reports.fold_left(started(name), |s: StatusView, r: Report| after_report(s, r)),
                outcome,
            );
            &&& st.state == LoadState::Ready <==> outcome is Loaded
            &&& st.state == LoadState::Error <==> !(outcome is Loaded)
            &&& st.model == Some(name)
            &&& st.device is Some <==> outcome is Loaded
            &&& st.reason is Some <==> !(outcome is Loaded)
        }),
{
    lemma_reports_keep_the_rest(name, reports);
}

/// When a load has ended the engine is there exactly when the backend is ready,
/// and it is the one the load gave: a previous model is gone either way. The
/// model is the one that was asked for, and a device or a reason is told,
/// whichever it came to.
pub proof fn law_the_engine_is_there_when_the_backend_is_ready<E>(
    name: Seq<char>,
    reports: Seq<Report>,
    ending: Ending<E>,
)
    ensures
        ({
            let st = after_load(
                reports.fold_left(started(name), |s: StatusView, r: Report| after_report(s, r)),
                ending.outcome(),
            );
            &&& st.model == Some(name)
            &&& match ending {
                Ending::Loaded(engine, label) => {
                    &&& st.state == LoadState::Ready
                    &&& ending.slot() == Some(engine)
                    &&& st.device == Some(label) && st.reason is None
                },
                Ending::Failed(error) => {
                    &&& st.state == LoadState::Error
                    &&& ending.slot() is None
                    &&& st.device is None && st.reason == Some(error)
                },
                Ending::Panicked(message) => {
                    &&& st.state == LoadState::Error
                    &&& ending.slot() is None
                    &&& st.device is None && st.reason == Some("load task panicked: "@ + message)
                },
            }
            &&& st.state == LoadState::Ready <==> ending.slot() is Some
        }),
{
    lemma_reports_keep_the_rest(name, reports);
}

proof fn lemma_reports_keep_the_rest(name: Seq<char>, reports: Seq<Report>)
    ensures
        ({
            let st = reports.fold_left(
                started(name),
                |s: StatusView, r: Report| after_report(s, r),
            );
            st == StatusView { load: st.load, ..started(name) }
        }),
    decreases reports.len(),
{
    if reports.len() > 0 {
        lemma_reports_keep_the_rest(name, reports.drop_last());
    }
}

/// A report that comes after its load ended changes nothing.
pub proof fn law_late_reports_are_dropped(
    st: StatusView,
    outcome: LoadOutcomeView,
    late: Report,
)
    ensures
        after_report(after_load(st, outcome), late) == after_load(st, outcome),
{
}

/// States, phases and steps have their names on the wire.
pub proof fn law_the_wire_has_these_names()
    ensures
        LoadState::Starting.wire() == "starting"@,
        LoadState::Loading.wire() == "loading"@,
        LoadState::Ready.wire() == "ready"@,
        LoadState::Error.wire() == "error"@,
        Phase::InitialSetup.wire() == "initial_setup"@,
        Phase::Loading.wire() == "loading"@,
        Step::LoadingWeights.wire() == "loading_weights"@,
        Step::BuildingKernels.wire() == "building_kernels"@,
        Step::WarmingUp.wire() == "warming_up"@,
{
}

/// What is read of a status, a member and a reply is what they hold.
pub proof fn law_what_is_read_is_what_is_held(
    st: Status,
    text: String,
    other: String,
    bits: u64,
    reply: Reply,
    i: int,
)
    requires
        0 <= i < reply.body@.len(),
    ensures
        st@.state == st.state && st@.load == st.load,
        st@.model == chars(st.model) && st@.device == chars(st.device) && st@.reason == chars(
            st.reason,
        ),
        chars(Some(text)) == Some(text@),
        chars(None) == None::<Seq<char>>,
        Field::Text(text)@ == FieldView::Text(text@),
        (Field::Model { name: text, provider: other })@ == (FieldView::Model {
            name: text@,
            provider: other@,
        }),
        Field::Number(bits)@ == FieldView::Number(bits),
        reply@.code == reply.code,
        reply@.body.len() == reply.body@.len(),
        reply@.body[i] == (reply.body@[i].0@, reply.body@[i].1@),
{
}

/// A reply says whether the request did what it was asked to, and then what, or
/// why not.
pub proof fn law_a_reply_says_how_it_went(code: u16, key: Seq<char>, value: Seq<char>)
    ensures
        ({
            let good = success(code, key, value);
            &&& good.code == code && good.body.len() == 2
            &&& good.body[0] == ("status"@, FieldView::Text("success"@))
            &&& good.body[1] == (key, FieldView::Text(value))
        }),
        ({
            let bad = refusal(code, value);
            &&& bad.code == code && bad.body.len() == 2
            &&& bad.body[0] == ("status"@, FieldView::Text("error"@))
            &&& bad.body[1] == ("message"@, FieldView::Text(value))
        }),
{
}

/// Every end of a transcription has its answer: the transcript with 200, and
/// anything else with 500, `inference_failed` and the reason.
pub proof fn law_every_end_of_a_transcription_is_answered(outcome: OutcomeView)
    ensures
        outcome is Transcribed ==> transcription(outcome).code == 200 && transcription(
            outcome,
        ).body == seq![
            ("status"@, FieldView::Text("success"@)),
            ("transcription"@, FieldView::Text(outcome->Transcribed_0)),
        ],
        !(outcome is Transcribed) ==> transcription(outcome).code == 500 && transcription(
            outcome,
        ).body == seq![
            ("status"@, FieldView::Text("error"@)),
            ("message"@, FieldView::Text("inference_failed"@)),
            (
                "detail"@,
                FieldView::Text(
                    match outcome {
                        OutcomeView::Failed(error) => error,
                        OutcomeView::NotLoaded => "engine not loaded"@,
                        OutcomeView::Panicked(message) => "panicked: "@ + message,
                        _ => "the transcription ended without a reply"@,
                    },
                ),
            ),
        ],
{
    let t = transcription(outcome);
    if outcome is Transcribed {
        assert(t.body =~= seq![
            ("status"@, FieldView::Text("success"@)),
            ("transcription"@, FieldView::Text(outcome->Transcribed_0)),
        ]);
    }
}

/// The status tells its state and whatever else is known, each once: the model
/// with its provider, the device, the reason, and while a load runs its phase,
/// its step and how far it has got.
pub proof fn law_the_status_tells_what_is_known(st: StatusView)
    ensures
        ({
            let body = status_body(st);
            let loading = st.state == LoadState::Loading;
            let one = |known: bool|
                if known {
                    1int
                } else {
                    0int
                };
            &&& body.len() == 2 + one(st.model is Some) + one(st.device is Some) + one(
                st.reason is Some,
            ) + one(loading && st.load.phase is Some) + one(loading && st.load.step is Some)
                + one(loading && st.load.progress is Some)
            &&& body.contains(("status"@, FieldView::Text("success"@)))
            &&& body.contains(("state"@, FieldView::Text(st.state.wire())))
            &&& st.model is Some ==> body.contains(
                (
                    "model"@,
                    FieldView::Model { name: st.model->0, provider: "local_voxtral"@ },
                ),
            )
            &&& st.device is Some ==> body.contains(("device"@, FieldView::Text(st.device->0)))
            &&& st.reason is Some ==> body.contains(("reason"@, FieldView::Text(st.reason->0)))
            &&& loading && st.load.phase is Some ==> body.contains(
                ("phase"@, FieldView::Text(st.load.phase->0.wire())),
            )
            &&& loading && st.load.step is Some ==> body.contains(
                ("step"@, FieldView::Text(st.load.step->0.wire())),
            )
            &&& loading && st.load.progress is Some ==> body.contains(
                ("progress"@, FieldView::Number(st.load.progress->0)),
            )
        }),
{
    let body = status_body(st);
    let loading = st.state == LoadState::Loading;
    let m: int = 2;
    let d = m + optional("model"@, identity(st.model)).len();
    let r = d + optional_text("device"@, st.device).len();
    let l = r + optional_text("reason"@, st.reason).len();
    assert(body[0] == ("status"@, FieldView::Text("success"@)));
    assert(body[1] == ("state"@, FieldView::Text(st.state.wire())));
    if st.model is Some {
        assert(body[m] == (
            "model"@,
            FieldView::Model { name: st.model->0, provider: "local_voxtral"@ },
        ));
    }
    if st.device is Some {
        assert(body[d] == ("device"@, FieldView::Text(st.device->0)));
    }
    if st.reason is Some {
        assert(body[r] == ("reason"@, FieldView::Text(st.reason->0)));
    }
    if loading {
        let phase = match st.load.phase {
            Some(phase) => Some(phase.wire()),
            None => None,
        };
        let step = match st.load.step {
            Some(step) => Some(step.wire()),
            None => None,
        };
        let s = l + optional_text("phase"@, phase).len();
        let p = s + optional_text("step"@, step).len();
        if st.load.phase is Some {
            assert(body[l] == ("phase"@, FieldView::Text(st.load.phase->0.wire())));
        }
        if st.load.step is Some {
            assert(body[s] == ("step"@, FieldView::Text(st.load.step->0.wire())));
        }
        if st.load.progress is Some {
            assert(body[p] == ("progress"@, FieldView::Number(st.load.progress->0)));
        }
    }
}

/// A load is taken for this backend's own provider, or none, and starts on its
/// model with nothing known of it, in the directory of that name under
/// `models`.
pub proof fn law_a_load_starts_afresh(
    provider: Seq<char>,
    name: Seq<char>,
    backend_dir: Seq<u8>,
)
    ensures
        serves(None),
        serves(Some(provider)) <==> provider == "local_voxtral"@,
        started(name).state == LoadState::Loading,
        started(name).model == Some(name),
        started(name).device is None && started(name).reason is None,
        started(name).load.phase is None && started(name).load.step is None && started(
            name,
        ).load.progress is None,
        model_dir(backend_dir, name) == join(
            join(backend_dir, encode_utf8("models"@)),
            encode_utf8(name),
        ),
{
}

/// A report changes how far a running load has got, and nothing else; the end of
/// a load changes the state and the device or the reason, and nothing else.
pub proof fn law_each_event_changes_its_own(st: StatusView, load: Report, text: Seq<char>)
    ensures
        st.state == LoadState::Loading ==> after_report(st, load) == (StatusView { load, ..st }),
        st.state != LoadState::Loading ==> after_report(st, load) == st,
        after_load(st, LoadOutcomeView::Loaded(text)) == (StatusView {
            state: LoadState::Ready,
            device: Some(text),
            ..st
        }),
        after_load(st, LoadOutcomeView::Failed(text)) == (StatusView {
            state: LoadState::Error,
            reason: Some(text),
            ..st
        }),
        after_load(st, LoadOutcomeView::Panicked(text)) == (StatusView {
            state: LoadState::Error,
            reason: Some("load task panicked: "@ + text),
            ..st
        }),
{
}

/// A load ends with the engine it gave, or with its error.
pub proof fn law_a_load_ends_with_what_it_gave<E>(engine: E, label: String, error: String)
    ensures
        ending_of(Ok::<(E, String), String>((engine, label))) == Ending::Loaded(engine, label@),
        ending_of(Err::<(E, String), String>(error)) == Ending::<E>::Failed(error@),
        LoadOutcome::Loaded(label)@ == LoadOutcomeView::Loaded(label@),
        LoadOutcome::Failed(error)@ == LoadOutcomeView::Failed(error@),
        LoadOutcome::Panicked(error)@ == LoadOutcomeView::Panicked(error@),
        Outcome::Transcribed(label)@ == OutcomeView::Transcribed(label@),
        Outcome::Failed(error)@ == OutcomeView::Failed(error@),
        Outcome::NotLoaded@ == OutcomeView::NotLoaded,
        Outcome::Panicked(error)@ == OutcomeView::Panicked(error@),
        Outcome::Silent@ == OutcomeView::Silent,
{
}

} // verus!

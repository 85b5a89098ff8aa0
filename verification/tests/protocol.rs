use voxtral::files::resolve_files;
use voxtral::protocol::{
    cancel, clear_engine, finish_load, get_status, load, ping, report, settle_load, transcribe,
    transcription_reply, Field,
    LoadOutcome, LoadReq, LoadState, Outcome, Phase, Reply, Report, Status, Step,
};

fn member<'a>(reply: &'a Reply, key: &str) -> Option<&'a Field> {
    reply.body.iter().find(|(k, _)| k == key).map(|(_, v)| v)
}

fn text<'a>(reply: &'a Reply, key: &str) -> &'a str {
    match member(reply, key) {
        Some(Field::Text(s)) => s,
        other => panic!("{key} is {other:?}"),
    }
}

fn request(name: &str, provider: Option<&str>, device: Option<&str>) -> LoadReq {
    LoadReq {
        name: name.to_string(),
        provider: provider.map(str::to_string),
        device: device.map(str::to_string),
    }
}

#[test]
fn ping_returns_pong() {
    let reply = ping();
    assert_eq!(reply.code, 200);
    assert_eq!(text(&reply, "status"), "success");
    assert_eq!(text(&reply, "message"), "pong");
}

#[test]
fn status_is_starting_before_load() {
    assert_eq!(text(&get_status(&Status::default()), "state"), "starting");
}

#[test]
fn cancel_acks() {
    let reply = cancel();
    assert_eq!(reply.code, 200);
    assert_eq!(text(&reply, "message"), "Cancelled");
}

#[test]
fn transcribe_before_ready_conflicts() {
    let audio = [0.0f32, 0.1];
    let reply = transcribe(&Status::default(), audio.len(), Some(16000)).unwrap_err();
    assert_eq!(reply.code, 409);
    assert_eq!(text(&reply, "message"), "not_ready");
}

#[test]
fn load_state_wire_strings() {
    assert_eq!(LoadState::Starting.as_str(), "starting");
    assert_eq!(LoadState::Loading.as_str(), "loading");
    assert_eq!(LoadState::Ready.as_str(), "ready");
    assert_eq!(LoadState::Error.as_str(), "error");
}

#[test]
fn status_includes_populated_fields() {
    let mut st = Status::default();
    st.state = LoadState::Ready;
    st.model = Some("voxtral-mini-3b-2507".to_string());
    st.device = Some("cuda".to_string());
    st.reason = Some("recovered".to_string());
    let v = get_status(&st);
    assert_eq!(text(&v, "state"), "ready");
    match member(&v, "model") {
        Some(Field::Model { name, provider }) => {
            assert_eq!(name, "voxtral-mini-3b-2507");
            assert_eq!(provider, "local_voxtral");
        }
        other => panic!("{other:?}"),
    }
    assert_eq!(text(&v, "device"), "cuda");
    assert_eq!(text(&v, "reason"), "recovered");
}

#[test]
fn status_reports_load_progress_only_while_loading() {
    let mut st = Status::default();
    st.state = LoadState::Loading;
    st.load = Report {
        phase: Some(Phase::InitialSetup),
        step: Some(Step::BuildingKernels),
        progress: Some(0.5f64.to_bits()),
    };
    let v = get_status(&st);
    assert_eq!(text(&v, "state"), "loading");
    assert_eq!(text(&v, "phase"), "initial_setup");
    assert_eq!(text(&v, "step"), "building_kernels");
    match member(&v, "progress") {
        Some(Field::Number(bits)) => assert_eq!(f64::from_bits(*bits), 0.5),
        other => panic!("{other:?}"),
    }

    st.state = LoadState::Ready;
    let v = get_status(&st);
    for field in ["phase", "step", "progress"] {
        assert!(member(&v, field).is_none(), "{field} outside a load: {v:?}");
    }
}

#[test]
fn load_rejects_mismatched_provider() {
    let mut st = Status::default();
    let req = request("voxtral-mini-3b-2507", Some("openai"), None);
    let (reply, job) = load(&mut st, b"/tmp", &req);
    assert_eq!(reply.code, 400);
    assert_eq!(text(&reply, "message"), "invalid_model");
    assert!(job.is_none());
    assert_eq!(st.state, LoadState::Starting);
}

#[test]
fn load_rejects_concurrent_load() {
    let mut st = Status::default();
    st.state = LoadState::Loading;
    let (reply, job) = load(&mut st, b"/tmp", &request("voxtral-mini-3b-2507", None, None));
    assert_eq!(reply.code, 409);
    assert_eq!(text(&reply, "message"), "already_loading");
    assert!(job.is_none());
}

#[test]
fn load_sets_model_name_synchronously() {
    let mut st = Status::default();
    let req = request("voxtral-mini-3b-2507", None, Some("cuda"));
    let (reply, job) = load(&mut st, b"/tmp", &req);
    assert_eq!(reply.code, 202);
    assert_eq!(st.model.as_deref(), Some("voxtral-mini-3b-2507"));
    let job = job.unwrap();
    assert_eq!(job.dir, b"/tmp/models/voxtral-mini-3b-2507");
    assert_eq!(job.device.as_deref(), Some("cuda"));
}

#[test]
fn transcribe_empty_audio_is_invalid() {
    let mut st = Status::default();
    st.state = LoadState::Ready;
    let reply = transcribe(&st, 0, Some(16000)).unwrap_err();
    assert_eq!(reply.code, 400);
    assert_eq!(text(&reply, "message"), "invalid_audio");
}

#[test]
fn load_missing_weights_transitions_to_error() {
    let mut st = Status::default();
    let req = request("voxtral-mini-3b-2507", None, Some("cuda"));
    let (reply, job) = load(&mut st, b"/tmp", &req);
    assert_eq!(reply.code, 202);
    let dir = job.unwrap().dir;
    let err = resolve_files(&dir, "/tmp/models/x", false, false, &Vec::new()).unwrap_err();
    finish_load(&mut st, &LoadOutcome::Failed(err));
    assert_eq!(st.state, LoadState::Error);
    assert_eq!(
        st.reason.as_deref(),
        Some("config.json not found in /tmp/models/x")
    );
}

#[test]
fn the_own_provider_is_served() {
    let mut st = Status::default();
    let (reply, job) = load(&mut st, b"/b/", &request("m", Some("local_voxtral"), None));
    assert_eq!(reply.code, 202);
    assert_eq!(text(&reply, "message"), "Loading started");
    assert_eq!(job.unwrap().dir, b"/b/models/m");
    assert_eq!(st.state, LoadState::Loading);
}

#[test]
fn a_load_that_ends_is_ready_or_in_error() {
    let mut st = Status::default();
    load(&mut st, b"/b", &request("m", None, None));
    finish_load(&mut st, &LoadOutcome::Loaded("vulkan".to_string()));
    assert_eq!(st.state, LoadState::Ready);
    assert_eq!(st.device.as_deref(), Some("vulkan"));
    assert_eq!(st.reason, None);

    load(&mut st, b"/b", &request("n", None, None));
    assert_eq!(st.device, None);
    finish_load(&mut st, &LoadOutcome::Panicked("oh".to_string()));
    assert_eq!(st.state, LoadState::Error);
    assert_eq!(st.reason.as_deref(), Some("load task panicked: oh"));
    assert_eq!(st.model.as_deref(), Some("n"));
}

#[test]
fn late_reports_are_dropped() {
    let mut st = Status::default();
    load(&mut st, b"/b", &request("m", None, None));
    let said = Report { phase: Some(Phase::Loading), step: Some(Step::WarmingUp), progress: None };
    report(&mut st, said);
    assert_eq!(st.load, said);
    finish_load(&mut st, &LoadOutcome::Loaded("cuda".to_string()));
    report(&mut st, Report::default());
    assert_eq!(st.load, said);
}

#[test]
fn a_transcription_defaults_to_the_models_rate() {
    let mut st = Status::default();
    st.state = LoadState::Ready;
    assert_eq!(transcribe(&st, 1, None).unwrap().sample_rate, 16_000);
    assert_eq!(transcribe(&st, 1, Some(8_000)).unwrap().sample_rate, 8_000);
}

#[test]
fn every_transcription_is_answered() {
    let reply = transcription_reply(&Outcome::Transcribed("hi".to_string()));
    assert_eq!((reply.code, text(&reply, "transcription")), (200, "hi"));
    let cases = [
        (Outcome::Failed("bad".to_string()), "bad"),
        (Outcome::NotLoaded, "engine not loaded"),
        (Outcome::Panicked("oh".to_string()), "panicked: oh"),
        (Outcome::Silent, "the transcription ended without a reply"),
    ];
    for (outcome, detail) in cases {
        let reply = transcription_reply(&outcome);
        assert_eq!(reply.code, 500);
        assert_eq!(text(&reply, "message"), "inference_failed");
        assert_eq!(text(&reply, "detail"), detail);
    }
}

#[test]
fn phases_and_steps_on_the_wire() {
    assert_eq!(Phase::InitialSetup.as_str(), "initial_setup");
    assert_eq!(Phase::Loading.as_str(), "loading");
    assert_eq!(Step::LoadingWeights.as_str(), "loading_weights");
    assert_eq!(Step::BuildingKernels.as_str(), "building_kernels");
    assert_eq!(Step::WarmingUp.as_str(), "warming_up");
}

#[test]
fn the_engine_is_there_when_the_backend_is_ready() {
    let mut st = Status::default();
    let mut slot = Some("old");
    load(&mut st, b"/b", &request("m", None, None));
    clear_engine(&mut slot);
    assert_eq!(slot, None);
    let outcome = settle_load(&mut slot, Ok(("new", "cuda".to_string())));
    finish_load(&mut st, &outcome);
    assert_eq!((slot, st.state), (Some("new"), LoadState::Ready));
    assert_eq!(st.device.as_deref(), Some("cuda"));

    load(&mut st, b"/b", &request("n", None, None));
    clear_engine(&mut slot);
    let outcome = settle_load(&mut slot, Err("no".to_string()));
    finish_load(&mut st, &outcome);
    assert_eq!((slot, st.state), (None, LoadState::Error));
    assert_eq!((st.device.as_deref(), st.reason.as_deref()), (None, Some("no")));
}

use refill::account::AccountInfo;
use refill::connection::ProbeOutcome;
use refill::exchange::{exchange_accepts_event, exchange_for, exchange_step, ExchangeAction, ExchangeEvent, ExchangeStep};
use refill::json::Json;
use refill::switch::{
    progress_note, save_accepts_event, save_step, switch_accepts_event, switch_step, Progress, SaveAction, SaveEvent,
    SaveState, SaveStep, StepEvent, SwitchAction, SwitchStep,
};

fn run_switch(id: &str, events: Vec<StepEvent>) -> Vec<SwitchAction> {
    let mut step = SwitchStep::Start;
    let mut out = Vec::new();
    for e in events {
        assert!(switch_accepts_event(step, &e));
        let (next, action) = switch_step(id, step, e);
        step = next;
        out.push(action);
    }
    out
}

fn ran(a: &SwitchAction) -> Option<SwitchStep> {
    match a {
        SwitchAction::Run { step, .. } => Some(*step),
        SwitchAction::Finish { .. } => None,
    }
}

fn percent(a: &SwitchAction) -> Option<u8> {
    let p = match a {
        SwitchAction::Run { progress, .. } => *progress,
        SwitchAction::Finish { progress, .. } => *progress,
    };
    p.map(|p| progress_note(p).percent)
}

#[test]
fn a_switch_runs_every_step_in_order() {
    let actions = run_switch(
        "work",
        vec![
            StepEvent::Begin,
            StepEvent::TargetChecked { exists: true },
            StepEvent::Done,
            StepEvent::Done,
            StepEvent::Failed { error: "sync failed".to_string() },
            StepEvent::Done,
            StepEvent::Done,
            StepEvent::CodexHomeInspected { is_link: true, exists: true },
            StepEvent::Done,
            StepEvent::Done,
            StepEvent::Done,
        ],
    );
    let steps: Vec<Option<SwitchStep>> = actions.iter().map(ran).collect();
    assert!(matches!(steps[0], Some(SwitchStep::CheckTarget)));
    assert!(matches!(steps[1], Some(SwitchStep::QuitCodex)));
    assert!(matches!(steps[2], Some(SwitchStep::ReconcileProfiles)));
    assert!(matches!(steps[3], Some(SwitchStep::SyncActiveProfile)));
    assert!(matches!(steps[4], Some(SwitchStep::HydrateTarget)));
    assert!(matches!(steps[5], Some(SwitchStep::ShareTargetHistory)));
    assert!(matches!(steps[6], Some(SwitchStep::InspectCodexHome)));
    assert!(matches!(steps[7], Some(SwitchStep::RemoveCodexHomeLink)));
    assert!(matches!(steps[8], Some(SwitchStep::LinkCodexHome)));
    assert!(matches!(steps[9], Some(SwitchStep::LaunchCodex)));
    match &actions[10] {
        SwitchAction::Finish { progress, result } => {
            assert!(matches!(progress, Some(Progress::Finished)));
            let r = result.as_ref().ok().unwrap();
            assert_eq!(r.profile_id, "work");
            assert!(r.launched);
        },
        _ => panic!("the switch should be over"),
    }
    // Progress only goes up.
    let shown: Vec<u8> = actions.iter().filter_map(percent).collect();
    assert_eq!(shown, vec![8, 24, 32, 48, 64, 78, 90, 100]);
}

#[test]
fn a_missing_target_ends_the_switch() {
    let actions = run_switch("gone", vec![StepEvent::Begin, StepEvent::TargetChecked { exists: false }]);
    match &actions[1] {
        SwitchAction::Finish { result, .. } => assert_eq!(result.as_ref().err().unwrap(), "profile 不存在：gone"),
        _ => panic!("expected the end"),
    }
}

#[test]
fn an_unsaved_codex_home_is_never_replaced() {
    let actions = run_switch(
        "work",
        vec![
            StepEvent::Begin,
            StepEvent::TargetChecked { exists: true },
            StepEvent::Done,
            StepEvent::Done,
            StepEvent::Done,
            StepEvent::Done,
            StepEvent::Done,
            StepEvent::CodexHomeInspected { is_link: false, exists: true },
        ],
    );
    match &actions[7] {
        SwitchAction::Finish { result, .. } => {
            assert_eq!(result.as_ref().err().unwrap(), "当前账号还没保存成 profile。请先保存当前账号。")
        },
        _ => panic!("expected the end"),
    }
    let fresh = run_switch(
        "work",
        vec![
            StepEvent::Begin,
            StepEvent::TargetChecked { exists: true },
            StepEvent::Done,
            StepEvent::Done,
            StepEvent::Done,
            StepEvent::Done,
            StepEvent::Done,
            StepEvent::CodexHomeInspected { is_link: false, exists: false },
        ],
    );
    assert!(matches!(ran(&fresh[7]), Some(SwitchStep::LinkCodexHome)));
}

#[test]
fn a_failed_quit_ends_the_switch_with_its_error() {
    let actions = run_switch(
        "work",
        vec![
            StepEvent::Begin,
            StepEvent::TargetChecked { exists: true },
            StepEvent::Failed { error: "Codex 仍在运行。请手动退出 Codex 后再试。".to_string() },
        ],
    );
    match &actions[2] {
        SwitchAction::Finish { result, progress } => {
            assert!(progress.is_none());
            assert_eq!(result.as_ref().err().unwrap(), "Codex 仍在运行。请手动退出 Codex 后再试。");
        },
        _ => panic!("expected the end"),
    }
    assert!(!switch_accepts_event(SwitchStep::Finished, &StepEvent::Done));
    assert!(!switch_accepts_event(SwitchStep::CheckTarget, &StepEvent::Done));
}

#[test]
fn progress_notes() {
    let n = progress_note(Progress::RepairingHistory);
    assert_eq!((n.stage.as_str(), n.message.as_str(), n.percent), ("syncing_current", "正在修复共享会话", 24));
    let n = progress_note(Progress::Finished);
    assert_eq!((n.stage.as_str(), n.message.as_str(), n.percent), ("done", "切换完成", 100));
}

fn run_save(events: Vec<SaveEvent>) -> (SaveState, Vec<SaveAction>) {
    let mut state = SaveState { step: SaveStep::Start, profile_id: String::new() };
    let mut out = Vec::new();
    for e in events {
        assert!(save_accepts_event(state.step, &e));
        let (next, action) = save_step(state, e);
        state = next;
        out.push(action);
    }
    (state, out)
}

#[test]
fn saving_the_current_account() {
    let info = AccountInfo {
        name: None,
        email: Some("ann@x.com".to_string()),
        plan: Some("plus".to_string()),
        account_id: None,
        subscription_until: None,
    };
    let (state, actions) = run_save(vec![
        SaveEvent::Begin,
        SaveEvent::CodexHomeInspected { is_link: false, exists: true },
        SaveEvent::AccountRead { info, existing: vec!["ann-x-com-plus".to_string()] },
        SaveEvent::Done,
        SaveEvent::Done,
        SaveEvent::Done,
        SaveEvent::Done,
        SaveEvent::Failed { error: "ignored".to_string() },
        SaveEvent::Done,
    ]);
    assert_eq!(state.profile_id, "ann-x-com-plus-2");
    assert!(matches!(actions[2], SaveAction::Run(SaveStep::QuitCodex)));
    assert!(matches!(actions[3], SaveAction::Run(SaveStep::MoveCodexHome)));
    assert!(matches!(actions[7], SaveAction::Run(SaveStep::LaunchCodex)));
    match &actions[8] {
        SaveAction::Finish(Ok(id)) => assert_eq!(id, "ann-x-com-plus-2"),
        _ => panic!("expected success"),
    }
}

#[test]
fn saving_needs_an_unsaved_codex_home() {
    let (_, a) = run_save(vec![SaveEvent::Begin, SaveEvent::CodexHomeInspected { is_link: false, exists: false }]);
    assert!(matches!(&a[1], SaveAction::Finish(Err(e)) if e == "~/.codex 不存在。"));
    let (_, a) = run_save(vec![SaveEvent::Begin, SaveEvent::CodexHomeInspected { is_link: true, exists: true }]);
    assert!(matches!(&a[1], SaveAction::Finish(Err(e)) if e == "当前账号已经保存为 profile。"));
}

fn message(a: &ExchangeAction) -> (u16, String) {
    match a {
        ExchangeAction::ReplyError { status, body } => {
            let m = body.get("error").and_then(|e| e.get("message")).and_then(|m| m.as_str()).unwrap();
            (*status, m.clone())
        },
        _ => panic!("expected an error reply"),
    }
}

fn start(provider: &str) -> refill::exchange::Exchange {
    let x = exchange_for(provider.to_string());
    let (x, a) = exchange_step(x, ExchangeEvent::Begin);
    assert!(matches!(a, ExchangeAction::FindProvider));
    x
}

#[test]
fn proxied_request_happy_path() {
    let x = start("switcher-deepseek");
    let (x, a) = exchange_step(
        x,
        ExchangeEvent::ProviderFound { upstream: Some(("https://api.deepseek.com/v1/".to_string(), "deepseek-chat".to_string())) },
    );
    assert!(matches!(a, ExchangeAction::ParseRequest));
    let request = Json::Object(vec![("model".to_string(), Json::Str("gpt-5".to_string()))]);
    assert!(exchange_accepts_event(x.step, &ExchangeEvent::RequestParsed { request: Ok(Json::Null) }));
    let (x, a) = exchange_step(x, ExchangeEvent::RequestParsed { request: Ok(request) });
    match &a {
        ExchangeAction::CallUpstream { endpoint, body } => {
            assert_eq!(endpoint, "https://api.deepseek.com/v1/chat/completions");
            assert_eq!(body.get("model").and_then(|m| m.as_str()).unwrap(), "deepseek-chat");
        },
        _ => panic!("expected the upstream call"),
    }
    let (x, a) = exchange_step(
        x,
        ExchangeEvent::UpstreamAnswered {
            outcome: ProbeOutcome::Responded { status: 200, reason: "OK".to_string(), body: "{}".to_string() },
        },
    );
    assert!(matches!(&a, ExchangeAction::ParseReply { text } if text == "{}"));
    let chat = Json::Object(vec![]);
    let (x, a) = exchange_step(x, ExchangeEvent::ReplyParsed { reply: Ok(chat) });
    assert!(matches!(x.step, ExchangeStep::Finished));
    match a {
        ExchangeAction::ReplyEvents { events } => {
            assert_eq!(events.len(), 3);
            let created = events[0].get("response").unwrap();
            assert_eq!(created.get("model").and_then(|m| m.as_str()).unwrap(), "deepseek-chat");
        },
        _ => panic!("expected events"),
    }
}

#[test]
fn proxied_request_errors() {
    let (_, a) = exchange_step(start("nope"), ExchangeEvent::ProviderFound { upstream: None });
    assert_eq!(message(&a), (404, "未知的 provider：nope".to_string()));

    let found = |x| exchange_step(x, ExchangeEvent::ProviderFound { upstream: Some(("https://h".to_string(), String::new())) }).0;
    let (_, a) = exchange_step(found(start("p")), ExchangeEvent::RequestParsed { request: Err("EOF".to_string()) });
    assert_eq!(message(&a), (400, "无法解析请求体：EOF".to_string()));

    let (x, _) = exchange_step(found(start("p")), ExchangeEvent::RequestParsed { request: Ok(Json::Object(vec![])) });
    assert_eq!(x.model, "unknown");
    let (_, a) = exchange_step(x, ExchangeEvent::UpstreamAnswered { outcome: ProbeOutcome::Failed { error: "refused".to_string() } });
    assert_eq!(message(&a), (502, "无法连接上游 https://h/chat/completions：refused".to_string()));

    let (x, _) = exchange_step(found(start("p")), ExchangeEvent::RequestParsed { request: Ok(Json::Object(vec![])) });
    let (_, a) = exchange_step(
        x,
        ExchangeEvent::UpstreamAnswered {
            outcome: ProbeOutcome::Responded { status: 401, reason: "Unauthorized".to_string(), body: "bad key".to_string() },
        },
    );
    assert_eq!(message(&a), (401, "上游返回 401 Unauthorized: bad key".to_string()));

    let (x, _) = exchange_step(found(start("p")), ExchangeEvent::RequestParsed { request: Ok(Json::Object(vec![])) });
    let (x, _) = exchange_step(
        x,
        ExchangeEvent::UpstreamAnswered {
            outcome: ProbeOutcome::Responded { status: 200, reason: "OK".to_string(), body: "<html>".to_string() },
        },
    );
    let (_, a) = exchange_step(x, ExchangeEvent::ReplyParsed { reply: Err("expected value".to_string()) });
    assert_eq!(message(&a), (502, "上游响应不是合法 JSON：expected value".to_string()));
}

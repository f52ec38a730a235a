use killer::authors::AuthorPost;
use killer::image::{ImageReply, UploadCause, UploadFailure};
use killer::orchestrator::{
    next_action, run_batch, run_unit, step, summarize, Summary, Unit, UnitAction, UnitEvent,
    UnitState,
};
use killer::posts::PostData;
use killer::submit::SubmissionResult;

fn uploaded(image: &str) -> UnitEvent {
    UnitEvent::AssetDone { upload: Ok(ImageReply { image: image.to_string() }) }
}

fn upload_failed(owner: &str) -> UnitEvent {
    UnitEvent::AssetDone {
        upload: Err(UploadFailure { owner: owner.to_string(), cause: UploadCause::Unreadable }),
    }
}

fn submitted(reference: &str) -> UnitEvent {
    UnitEvent::SubmitDone { result: SubmissionResult::Success(reference.to_string()) }
}

fn rejected(result: SubmissionResult) -> UnitEvent {
    UnitEvent::SubmitDone { result }
}

fn author() -> AuthorPost {
    AuthorPost {
        id: 17,
        name: "Ana".to_string(),
        email: "ana@example.org".to_string(),
        login: "ana".to_string(),
        password: "SECRET-REDACTED".to_string(),
        created_at: "2020-01-01 00:00:00".to_string(),
        image_url: Some("https://pstu.org.br/wp-content/uploads/2019/01/ana.jpg".to_string()),
    }
}

#[test]
fn one_failed_submission_leaves_the_others_alone() {
    let units = vec![
        Unit { has_asset: true, events: vec![uploaded("/a.jpg"), UnitEvent::TransformDone, submitted("1")] },
        Unit {
            has_asset: true,
            events: vec![
                uploaded("/b.jpg"),
                UnitEvent::TransformDone,
                rejected(SubmissionResult::ServerFailed),
            ],
        },
        Unit { has_asset: false, events: vec![UnitEvent::TransformDone, submitted("3")] },
    ];
    let states = run_batch(units);
    assert_eq!(
        states,
        vec![
            UnitState::Submitted { created: "1".to_string() },
            UnitState::Failed { result: SubmissionResult::ServerFailed },
            UnitState::Submitted { created: "3".to_string() },
        ]
    );
    assert_eq!(summarize(&states), Summary { submitted: 2, failed: 1, unfinished: 0 });
}

#[test]
fn a_batch_has_one_state_for_each_unit() {
    assert_eq!(run_batch(vec![]), vec![]);
    let units = vec![
        Unit { has_asset: true, events: vec![] },
        Unit { has_asset: false, events: vec![UnitEvent::TransformDone] },
        Unit { has_asset: true, events: vec![upload_failed("3")] },
        Unit { has_asset: false, events: vec![UnitEvent::TransformDone, rejected(SubmissionResult::TransportFailed)] },
    ];
    let states = run_batch(units);
    assert_eq!(
        states,
        vec![
            UnitState::Fetched,
            UnitState::Transformed { reference: None },
            UnitState::AssetResolved { reference: None },
            UnitState::Failed { result: SubmissionResult::TransportFailed },
        ]
    );
    assert_eq!(summarize(&states), Summary { submitted: 0, failed: 1, unfinished: 3 });
    assert_eq!(summarize(&[]), Summary { submitted: 0, failed: 0, unfinished: 0 });
}

#[test]
fn a_unit_with_an_asset_goes_through_four_states() {
    let mut state = UnitState::Fetched;
    assert_eq!(next_action(true, &state), UnitAction::UploadAsset);
    state = step(true, state, uploaded("/content/images/a.jpg"));
    assert_eq!(
        state,
        UnitState::AssetResolved { reference: Some("/content/images/a.jpg".to_string()) }
    );
    assert_eq!(
        next_action(true, &state),
        UnitAction::Transform { reference: Some("/content/images/a.jpg".to_string()) }
    );
    state = step(true, state, UnitEvent::TransformDone);
    assert_eq!(
        state,
        UnitState::Transformed { reference: Some("/content/images/a.jpg".to_string()) }
    );
    assert_eq!(next_action(true, &state), UnitAction::Submit);
    state = step(true, state, submitted("42"));
    assert_eq!(state, UnitState::Submitted { created: "42".to_string() });
    assert_eq!(next_action(true, &state), UnitAction::Finish);
}

#[test]
fn a_unit_without_an_asset_skips_the_upload() {
    let mut state = UnitState::Fetched;
    assert_eq!(next_action(false, &state), UnitAction::Transform { reference: None });
    state = step(false, state, UnitEvent::TransformDone);
    assert_eq!(state, UnitState::Transformed { reference: None });
    state = step(false, state, rejected(SubmissionResult::ClientRejected));
    assert_eq!(state, UnitState::Failed { result: SubmissionResult::ClientRejected });
    assert_eq!(next_action(false, &state), UnitAction::Finish);
}

#[test]
fn a_failed_upload_does_not_stop_the_unit() {
    let state = run_unit(
        true,
        vec![upload_failed("17"), UnitEvent::TransformDone, submitted("42")],
    );
    assert_eq!(state, UnitState::Submitted { created: "42".to_string() });
}

#[test]
fn a_failed_upload_leaves_no_reference() {
    let state = step(true, UnitState::Fetched, upload_failed("17"));
    assert_eq!(state, UnitState::AssetResolved { reference: None });
    assert_eq!(next_action(true, &state), UnitAction::Transform { reference: None });
    let payload = author().with_reference(None);
    assert_eq!(payload.image_url, None);
    assert_eq!(payload.name, "Ana");
}

#[test]
fn the_payload_holds_what_the_upload_gave() {
    let state = step(true, UnitState::Fetched, uploaded("/content/images/ana.jpg"));
    let reference = match next_action(true, &state) {
        UnitAction::Transform { reference } => reference,
        other => panic!("unexpected action {:?}", other),
    };
    let payload = author().with_reference(reference);
    assert_eq!(payload.image_url, Some("/content/images/ana.jpg".to_string()));
    assert_eq!(payload.id, 17);
    assert_eq!(payload.email, "ana@example.org");
    let updated = author().update_image("/x.jpg".to_string());
    assert_eq!(updated.image_url, Some("/x.jpg".to_string()));
    assert_eq!(updated.login, "ana");
    assert_eq!(author().owner_id(), "17");
}

#[test]
fn events_out_of_turn_change_nothing() {
    assert_eq!(step(true, UnitState::Fetched, UnitEvent::TransformDone), UnitState::Fetched);
    assert_eq!(step(true, UnitState::Fetched, submitted("1")), UnitState::Fetched);
    assert_eq!(step(false, UnitState::Fetched, uploaded("/a.jpg")), UnitState::Fetched);
    assert_eq!(
        step(true, UnitState::AssetResolved { reference: None }, uploaded("/a.jpg")),
        UnitState::AssetResolved { reference: None }
    );
    assert_eq!(
        step(true, UnitState::Transformed { reference: None }, uploaded("/a.jpg")),
        UnitState::Transformed { reference: None }
    );
    assert_eq!(
        step(true, UnitState::Submitted { created: "1".to_string() }, submitted("2")),
        UnitState::Submitted { created: "1".to_string() }
    );
    assert_eq!(
        step(
            true,
            UnitState::Failed { result: SubmissionResult::ServerFailed },
            submitted("2")
        ),
        UnitState::Failed { result: SubmissionResult::ServerFailed }
    );
    assert_eq!(
        run_unit(true, vec![uploaded("/a.jpg"), uploaded("/b.jpg"), UnitEvent::TransformDone]),
        UnitState::Transformed { reference: Some("/a.jpg".to_string()) }
    );
}

#[test]
fn a_post_is_submitted_with_the_reference() {
    let post = PostData {
        id: 9,
        title: "T".to_string(),
        slug: "t".to_string(),
        html: "<p>x</p>".to_string(),
        created_at: "c".to_string(),
        updated_at: "u".to_string(),
        author_id: "17".to_string(),
        image_url: Some("https://pstu.org.br/wp-content/uploads/a.jpg".to_string()),
        tags: Some("a,b".to_string()),
    };
    assert_eq!(post.owner_id(), "9");
    let with = post.clone().with_reference(Some("/content/images/a.jpg".to_string()));
    assert_eq!(with.image_url, Some("/content/images/a.jpg".to_string()));
    assert_eq!(with.html, "<p>x</p>");
    assert_eq!(with.tags, Some("a,b".to_string()));
    let without = post.with_reference(None);
    assert_eq!(without.image_url, None);
    assert_eq!(without.title, "T");
}

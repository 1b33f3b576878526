use hitomezashi::SaveAction;
use hitomezashi::SaveEvent;
use hitomezashi::SaveFlow;
use hitomezashi::save_flow_step;

#[test]
fn test_save_flow_full_cycle() {
    let (s1, a1) = save_flow_step(SaveFlow::Idle, SaveEvent::SaveClicked);
    assert_eq!((s1, a1), (SaveFlow::Requested, SaveAction::Nothing));

    let (s2, a2) = save_flow_step(s1, SaveEvent::FrameDrawn);
    assert_eq!((s2, a2), (SaveFlow::Rendered, SaveAction::WriteImage));

    let (s3, a3) = save_flow_step(s2, SaveEvent::UpdateTick);
    assert_eq!((s3, a3), (SaveFlow::Idle, SaveAction::Restore));
}

#[test]
fn test_save_flow_other_events_do_nothing() {
    let cases = [
        (SaveFlow::Idle, SaveEvent::FrameDrawn),
        (SaveFlow::Idle, SaveEvent::UpdateTick),
        (SaveFlow::Requested, SaveEvent::SaveClicked),
        (SaveFlow::Requested, SaveEvent::UpdateTick),
        (SaveFlow::Rendered, SaveEvent::SaveClicked),
        (SaveFlow::Rendered, SaveEvent::FrameDrawn),
    ];
    for (f, e) in cases {
        let (next, action) = save_flow_step(f, e);
        assert_eq!(next, f);
        assert_eq!(action, SaveAction::Nothing);
    }
}

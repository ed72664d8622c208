use deck::modes::ModeId;
use deck::pipeline::LineSrc;
use deck::session::{event_step, route_line, EventAction, LineAction, LineRoute, RunEvent};

#[test]
fn stale_runs_are_dropped() {
    let ev = RunEvent::Line { run: 3, src: LineSrc::Stdout, text: "POCSAG512: Address: 1 Function: 0 Alpha: hi".into() };
    assert_eq!(event_step(Some((4, ModeId::Pocsag)), &ev), EventAction::Ignore);
    assert_eq!(event_step(None, &ev), EventAction::Ignore);
    assert_eq!(
        event_step(Some((3, ModeId::Pocsag)), &ev),
        EventAction::Line(LineAction { device_busy: false, route: LineRoute::Pager })
    );
    assert_eq!(event_step(Some((3, ModeId::Waterfall)), &RunEvent::Iq { run: 3 }), EventAction::Iq { peaks: true });
    assert_eq!(event_step(Some((3, ModeId::Nfm)), &RunEvent::Iq { run: 3 }), EventAction::Iq { peaks: false });
    assert_eq!(event_step(Some((3, ModeId::Nfm)), &RunEvent::RigTune { run: 3, hz: 145_500_000 }), EventAction::Retune(145_500_000));
    assert_eq!(event_step(Some((3, ModeId::Nfm)), &RunEvent::Rec { run: 2, started: true }), EventAction::Ignore);
}

#[test]
fn lines_route_by_view_and_stream() {
    // dsd-neo call info comes on stderr
    assert_eq!(route_line(ModeId::Dmr, LineSrc::Stderr, "Slot 1 TG: 9").route, LineRoute::Voice);
    assert_eq!(route_line(ModeId::Dmr, LineSrc::Sbs, "x").route, LineRoute::RawOnly);
    assert_eq!(route_line(ModeId::Pocsag, LineSrc::Stderr, "x").route, LineRoute::RawOnly);
    assert_eq!(route_line(ModeId::Rtty, LineSrc::Stdout, "RYRY").route, LineRoute::TextFeed);
    assert_eq!(route_line(ModeId::Rtty, LineSrc::Stderr, "RYRY").route, LineRoute::RawOnly);
    assert_eq!(route_line(ModeId::Nfm, LineSrc::Stdout, "x").route, LineRoute::RawOnly);
    let busy = route_line(ModeId::Nfm, LineSrc::Stderr, "usb_claim_interface error -6");
    assert!(busy.device_busy);
    assert!(!route_line(ModeId::Nfm, LineSrc::Stdout, "usb_claim_interface error -6").device_busy);
}

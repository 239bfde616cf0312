use pinnacle::decoration::{
    kde_of, new_decoration, request_mode, unset_mode, xdg_of, ConfigureWhen, DecorationMode,
    DecorationTarget, KdeDecorationObject, KdeMode, ModeDecision,
};

#[test]
fn decoration_modes_map_between_protocols() {
    assert_eq!(kde_of(DecorationMode::ServerSide), KdeMode::Server);
    assert_eq!(kde_of(DecorationMode::ClientSide), KdeMode::Client);
    assert_eq!(xdg_of(KdeMode::Server), DecorationMode::ServerSide);
    assert_eq!(xdg_of(KdeMode::NoDecorations), DecorationMode::ClientSide);
}

#[test]
fn new_decoration_follows_window_rule() {
    assert_eq!(new_decoration(None), (None, KdeMode::Client));
    assert_eq!(
        new_decoration(Some(DecorationMode::ServerSide)),
        (Some(DecorationMode::ServerSide), KdeMode::Server)
    );
}

#[test]
fn window_rule_wins_over_client_request() {
    let d = request_mode(DecorationTarget::Mapped { rule: Some(DecorationMode::ClientSide) }, DecorationMode::ServerSide);
    assert_eq!(
        d,
        ModeDecision {
            pending: Some(Some(DecorationMode::ClientSide)),
            recorded: None,
            configure: ConfigureWhen::Always,
            kde: KdeMode::Client
        }
    );
    let d = request_mode(DecorationTarget::PostInitialConfigure { rule: None }, DecorationMode::ServerSide);
    assert_eq!(d.pending, Some(Some(DecorationMode::ServerSide)));
    assert_eq!(d.kde, KdeMode::Server);
}

#[test]
fn waiting_window_records_request() {
    let d = request_mode(DecorationTarget::Waiting, DecorationMode::ServerSide);
    assert_eq!(d.recorded, Some(Some(DecorationMode::ServerSide)));
    assert_eq!(d.pending, None);
    assert_eq!(d.configure, ConfigureWhen::Never);
    let u = unset_mode(DecorationTarget::Waiting);
    assert_eq!(u.recorded, Some(None));
    assert_eq!(request_mode(DecorationTarget::Missing, DecorationMode::ServerSide).kde, KdeMode::Client);
}

#[test]
fn unset_mode_restores_rule() {
    let u = unset_mode(DecorationTarget::Mapped { rule: Some(DecorationMode::ServerSide) });
    assert_eq!(u.pending, Some(Some(DecorationMode::ServerSide)));
    assert_eq!(u.configure, ConfigureWhen::IfChanged);
}

#[test]
fn kde_repeat_request_is_dropped() {
    let mut obj = KdeDecorationObject { last_requested_mode: None };
    assert!(obj.request(KdeMode::Server));
    assert!(!obj.request(KdeMode::Server));
    assert!(obj.request(KdeMode::Client));
}

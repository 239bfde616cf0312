//! Decoration mode negotiation: whether a window draws its own decorations
//! or the compositor does, through the xdg and KDE decoration protocols.
use vstd::prelude::*;

verus! {

/// An xdg decoration mode.
#[derive(Debug, Clone, Copy, PartialEq, Eq, Structural)]
pub enum DecorationMode {
    ClientSide,
    ServerSide,
}

/// A KDE server decoration mode.
#[derive(Debug, Clone, Copy, PartialEq, Eq, Structural)]
pub enum KdeMode {
    NoDecorations,
    Client,
    Server,
}

/// The KDE mode that an xdg mode stands for.
pub open spec fn spec_kde_of(mode: DecorationMode) -> KdeMode {
    match mode {
        DecorationMode::ServerSide => KdeMode::Server,
        DecorationMode::ClientSide => KdeMode::Client,
    }
}

/// The KDE mode that an xdg mode stands for.
pub fn kde_of(mode: DecorationMode) -> (r: KdeMode)
    ensures
        r == spec_kde_of(mode),
{
    match mode {
        DecorationMode::ServerSide => KdeMode::Server,
        DecorationMode::ClientSide => KdeMode::Client,
    }
}

/// The xdg mode that a KDE mode asks for: server side for `Server`, client
/// side otherwise.
pub open spec fn spec_xdg_of(mode: KdeMode) -> DecorationMode {
    match mode {
        KdeMode::Server => DecorationMode::ServerSide,
        _ => DecorationMode::ClientSide,
    }
}

/// The xdg mode that a KDE mode asks for.
pub fn xdg_of(mode: KdeMode) -> (r: DecorationMode)
    ensures
        r == spec_xdg_of(mode),
{
    match mode {
        KdeMode::Server => DecorationMode::ServerSide,
        _ => DecorationMode::ClientSide,
    }
}

/// A new decoration object for a window whose window rules set `rule` (if
/// any): the toplevel's pending decoration mode is the rule's, and the KDE
/// object is told the rule's mode, or client side without a rule.
pub fn new_decoration(rule: Option<DecorationMode>) -> (r: (Option<DecorationMode>, KdeMode))
    ensures
        r.0 == rule,
        r.1 == match rule {
            Some(m) => spec_kde_of(m),
            None => KdeMode::Client,
        },
{
    let kde = match rule {
        Some(m) => kde_of(m),
        None => KdeMode::Client,
    };
    (rule, kde)
}

/// The window a decoration request is about, as far as the decision reads
/// it: a mapped window or one past its initial configure (with the mode its
/// window rules set, if any), one still waiting for its tags or rules, or
/// none.
#[derive(Debug, Clone, Copy, PartialEq, Eq, Structural)]
pub enum DecorationTarget {
    Mapped { rule: Option<DecorationMode> },
    PostInitialConfigure { rule: Option<DecorationMode> },
    Waiting,
    Missing,
}

/// When the toplevel is sent a configure after a decoration change.
#[derive(Debug, Clone, Copy, PartialEq, Eq, Structural)]
pub enum ConfigureWhen {
    Never,
    Always,
    /// Only where its pending state changed.
    IfChanged,
}

/// What a decoration request does: the toplevel's new pending decoration
/// mode (where it is set), the mode recorded among a waiting window's client
/// requests (where it is recorded), the configure sent, and the KDE mode
/// reported.
#[derive(Debug, Clone, Copy, PartialEq, Eq, Structural)]
pub struct ModeDecision {
    pub pending: Option<Option<DecorationMode>>,
    pub recorded: Option<Option<DecorationMode>>,
    pub configure: ConfigureWhen,
    pub kde: KdeMode,
}

/// The client asks for `mode`: a window's rule wins over the request; a
/// window still waiting records the request for later.
pub fn request_mode(target: DecorationTarget, mode: DecorationMode) -> (r: ModeDecision)
    ensures
        r == match target {
            DecorationTarget::Mapped { rule } | DecorationTarget::PostInitialConfigure { rule } => {
                let chosen = match rule {
                    Some(m) => m,
                    None => mode,
                };
                ModeDecision {
                    pending: Some(Some(chosen)),
                    recorded: None,
                    configure: ConfigureWhen::Always,
                    kde: spec_kde_of(chosen),
                }
            },
            DecorationTarget::Waiting => ModeDecision {
                pending: None,
                recorded: Some(Some(mode)),
                configure: ConfigureWhen::Never,
                kde: spec_kde_of(mode),
            },
            DecorationTarget::Missing => ModeDecision {
                pending: None,
                recorded: None,
                configure: ConfigureWhen::Never,
                kde: KdeMode::Client,
            },
        },
{
    match target {
        DecorationTarget::Mapped { rule } | DecorationTarget::PostInitialConfigure { rule } => {
            let chosen = match rule {
                Some(m) => m,
                None => mode,
            };
            ModeDecision {
                pending: Some(Some(chosen)),
                recorded: None,
                configure: ConfigureWhen::Always,
                kde: kde_of(chosen),
            }
        },
        DecorationTarget::Waiting => ModeDecision {
            pending: None,
            recorded: Some(Some(mode)),
            configure: ConfigureWhen::Never,
            kde: kde_of(mode),
        },
        DecorationTarget::Missing => ModeDecision {
            pending: None,
            recorded: None,
            configure: ConfigureWhen::Never,
            kde: KdeMode::Client,
        },
    }
}

/// The client no longer asks for a mode: the window's rule (if any) is
/// what stays pending; a waiting window forgets the request.
pub fn unset_mode(target: DecorationTarget) -> (r: ModeDecision)
    ensures
        r == match target {
            DecorationTarget::Mapped { rule } | DecorationTarget::PostInitialConfigure { rule } => ModeDecision {
                pending: Some(rule),
                recorded: None,
                configure: ConfigureWhen::IfChanged,
                kde: KdeMode::Client,
            },
            DecorationTarget::Waiting => ModeDecision {
                pending: None,
                recorded: Some(None),
                configure: ConfigureWhen::Never,
                kde: KdeMode::Client,
            },
            DecorationTarget::Missing => ModeDecision {
                pending: None,
                recorded: None,
                configure: ConfigureWhen::Never,
                kde: KdeMode::Client,
            },
        },
{
    match target {
        DecorationTarget::Mapped { rule } | DecorationTarget::PostInitialConfigure { rule } => ModeDecision {
            pending: Some(rule),
            recorded: None,
            configure: ConfigureWhen::IfChanged,
            kde: KdeMode::Client,
        },
        DecorationTarget::Waiting => ModeDecision {
            pending: None,
            recorded: Some(None),
            configure: ConfigureWhen::Never,
            kde: KdeMode::Client,
        },
        DecorationTarget::Missing => ModeDecision {
            pending: None,
            recorded: None,
            configure: ConfigureWhen::Never,
            kde: KdeMode::Client,
        },
    }
}

/// What a KDE decoration object remembers: the mode its client last asked
/// for.
#[derive(Debug, Clone, Copy, PartialEq, Eq, Structural)]
pub struct KdeDecorationObject {
    pub last_requested_mode: Option<KdeMode>,
}

/// Whether a KDE request for `mode` goes on to be decided, where the client
/// last asked for `last`.
pub open spec fn kde_request_proceeds(last: Option<KdeMode>, mode: KdeMode) -> bool {
    last != Some(mode)
}

impl KdeDecorationObject {
    /// The client asks for `mode`; returns whether the request goes on to be
    /// decided. A request for the mode last asked for is dropped, so that
    /// client and compositor cannot answer each other forever.
    pub fn request(&mut self, mode: KdeMode) -> (r: bool)
        ensures
            final(self).last_requested_mode == Some(mode),
            r == kde_request_proceeds(old(self).last_requested_mode, mode),
    {
        let already = match self.last_requested_mode {
            Some(last) => last == mode,
            None => false,
        };
        self.last_requested_mode = Some(mode);
        !already
    }
}

/// A KDE client that asks for the same mode twice in a row gets no second
/// answer: after a request for a mode, a request for it again is dropped.
pub proof fn law_kde_repeat_request_is_dropped(last: Option<KdeMode>, mode: KdeMode)
    ensures
        !kde_request_proceeds(Some(mode), mode),
        last != Some(mode) ==> kde_request_proceeds(last, mode),
{
}

/// The two protocols agree on who draws decorations: an xdg mode read back
/// from the KDE mode it stands for is that mode, and a KDE mode asks for
/// server-side decorations exactly when it is `Server` (a client that draws
/// its own, or wants none, keeps client-side decorations).
pub proof fn law_kde_and_xdg_modes_agree(mode: DecorationMode, kde: KdeMode)
    ensures
        spec_xdg_of(spec_kde_of(mode)) == mode,
        (spec_xdg_of(kde) == DecorationMode::ServerSide) == (kde == KdeMode::Server),
        spec_kde_of(mode) != KdeMode::NoDecorations,
{
}

} // verus!

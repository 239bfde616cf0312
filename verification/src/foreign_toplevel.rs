//! Foreign toplevel management: what taskbars are told of each window, and
//! when.
use vstd::prelude::*;

pub mod refresh;

verus! {

/// A state of a toplevel as the foreign toplevel protocol reports it.
#[derive(Debug, Clone, Copy, PartialEq, Eq, Structural)]
pub enum ToplevelState {
    Maximized,
    Minimized,
    Activated,
    Fullscreen,
}

/// The protocol number of a state.
pub open spec fn spec_state_number(s: ToplevelState) -> u32 {
    match s {
        ToplevelState::Maximized => 0,
        ToplevelState::Minimized => 1,
        ToplevelState::Activated => 2,
        ToplevelState::Fullscreen => 3,
    }
}

impl ToplevelState {
    /// The protocol number of the state.
    pub fn number(&self) -> (r: u32)
        ensures
            r == spec_state_number(*self),
    {
        match self {
            ToplevelState::Maximized => 0,
            ToplevelState::Minimized => 1,
            ToplevelState::Activated => 2,
            ToplevelState::Fullscreen => 3,
        }
    }
}

/// The states reported for a window: maximized, fullscreen, minimized, and
/// activated only for the window with keyboard focus, in that order.
pub open spec fn spec_states(maximized: bool, fullscreen: bool, is_minimized: bool, has_focus: bool) -> Seq<
    ToplevelState,
> {
    (if maximized { seq![ToplevelState::Maximized] } else { Seq::empty() }) + (if fullscreen {
        seq![ToplevelState::Fullscreen]
    } else {
        Seq::empty()
    }) + (if is_minimized { seq![ToplevelState::Minimized] } else { Seq::empty() }) + (if has_focus {
        seq![ToplevelState::Activated]
    } else {
        Seq::empty()
    })
}

/// The states to report for a window, from whether its xdg state holds
/// maximized and fullscreen, whether it is minimized, and whether it has
/// keyboard focus.
pub fn to_state_vec(maximized: bool, fullscreen: bool, is_minimized: bool, has_focus: bool) -> (r: Vec<
    ToplevelState,
>)
    ensures
        r@ == spec_states(maximized, fullscreen, is_minimized, has_focus),
{
    let mut r: Vec<ToplevelState> = Vec::new();
    if maximized {
        r.push(ToplevelState::Maximized);
    }
    if fullscreen {
        r.push(ToplevelState::Fullscreen);
    }
    if is_minimized {
        r.push(ToplevelState::Minimized);
    }
    if has_focus {
        r.push(ToplevelState::Activated);
    }
    assert(r@ =~= spec_states(maximized, fullscreen, is_minimized, has_focus));
    r
}

/// An optional text as a value.
pub open spec fn text_view(t: Option<String>) -> Option<Seq<char>> {
    match t {
        Some(s) => Some(s@),
        None => None,
    }
}

/// What the protocol last told clients of a window.
#[derive(Debug)]
pub struct ToplevelRecord {
    pub title: Option<String>,
    pub app_id: Option<String>,
    pub states: Vec<ToplevelState>,
    /// The output (by handle) the window is on.
    pub output: Option<u64>,
}

/// How a title or app id changed.
#[derive(Debug, Clone, PartialEq, Eq)]
pub enum TextChange {
    Unchanged,
    /// It changed to this text, which clients are sent.
    ChangedTo(String),
    /// It was taken away; clients are not told.
    Cleared,
}

/// What refreshing a window tells clients.
#[derive(Debug, Clone, PartialEq, Eq)]
pub struct ToplevelRefresh {
    /// The window was new: clients get a fresh handle for it.
    pub created: bool,
    pub title: TextChange,
    pub app_id: TextChange,
    pub states_changed: bool,
    pub output_changed: bool,
}

/// How the text `old` changed to `new`.
pub open spec fn text_change_view_ok(
    c: TextChange,
    old: Option<Seq<char>>,
    new: Option<Seq<char>>,
) -> bool {
    if old == new {
        c == TextChange::Unchanged
    } else {
        match new {
            Some(s) => c matches TextChange::ChangedTo(t) && t@ == s,
            None => c == TextChange::Cleared,
        }
    }
}

/// How `old` changed to `new`.
pub open spec fn text_change_ok(c: TextChange, old: Option<String>, new: Option<String>) -> bool {
    text_change_view_ok(c, text_view(old), text_view(new))
}

impl ToplevelRefresh {
    /// Whether the clients' handles are updated: a text changed to a new
    /// text, or the states or the output changed.
    pub open spec fn spec_something_changed(&self) -> bool {
        self.title is ChangedTo || self.app_id is ChangedTo || self.states_changed
            || self.output_changed
    }

    /// Whether the clients' handles are updated.
    pub fn something_changed(&self) -> (r: bool)
        ensures
            r == self.spec_something_changed(),
    {
        let title = match self.title {
            TextChange::ChangedTo(_) => true,
            _ => false,
        };
        let app_id = match self.app_id {
            TextChange::ChangedTo(_) => true,
            _ => false,
        };
        title || app_id || self.states_changed || self.output_changed
    }
}

/// Whether two optional texts are the same.
fn same_text(a: &Option<String>, b: &Option<String>) -> (r: bool)
    ensures
        r == (text_view(*a) == text_view(*b)),
{
    match (a, b) {
        (Some(x), Some(y)) => x.eq(y),
        (None, None) => true,
        _ => false,
    }
}

/// Whether two state lists are the same.
fn same_states(a: &Vec<ToplevelState>, b: &Vec<ToplevelState>) -> (r: bool)
    ensures
        r == (a@ == b@),
{
    if a.len() != b.len() {
        return false;
    }
    let mut i: usize = 0;
    while i < a.len()
        invariant
            a@.len() == b@.len(),
            0 <= i <= a@.len(),
            forall|j: int| 0 <= j < i ==> a@[j] == b@[j],
        decreases a@.len() - i,
    {
        if a[i] != b[i] {
            return false;
        }
        i = i + 1;
    }
    assert(a@ =~= b@);
    true
}

/// How a text changed, and the text to keep.
fn text_change(old: &Option<String>, new: Option<String>) -> (r: (TextChange, Option<String>))
    ensures
        text_change_ok(r.0, *old, new),
        text_view(r.1) == text_view(new),
{
    if same_text(old, &new) {
        return (TextChange::Unchanged, new);
    }
    match new {
        Some(s) => {
            let sent = s.clone();
            (TextChange::ChangedTo(sent), Some(s))
        },
        None => (TextChange::Cleared, None),
    }
}

/// Refreshes what clients know of a window with its current title, app id,
/// states and output, where `record` is what they were last told (if
/// anything): afterwards the record holds the current values, and the result
/// says what changed.
pub fn refresh_toplevel(
    record: &mut Option<ToplevelRecord>,
    title: Option<String>,
    app_id: Option<String>,
    states: Vec<ToplevelState>,
    output: Option<u64>,
) -> (r: ToplevelRefresh)
    ensures
        (*final(record)) is Some,
        text_view((*final(record))->0.title) == text_view(title),
        text_view((*final(record))->0.app_id) == text_view(app_id),
        (*final(record))->0.states@ == states@,
        (*final(record))->0.output == output,
        r.created == (*old(record)) is None,
        (*old(record)) is None ==> {
            &&& r.title == TextChange::Unchanged
            &&& r.app_id == TextChange::Unchanged
            &&& !r.states_changed
            &&& !r.output_changed
        },
        (*old(record)) is Some ==> {
            let before = (*old(record))->0;
            &&& text_change_ok(r.title, before.title, title)
            &&& text_change_ok(r.app_id, before.app_id, app_id)
            &&& r.states_changed == (before.states@ != states@)
            &&& r.output_changed == (before.output != output)
        },
{
    match record.take() {
        None => {
            *record = Some(ToplevelRecord { title, app_id, states, output });
            ToplevelRefresh {
                created: true,
                title: TextChange::Unchanged,
                app_id: TextChange::Unchanged,
                states_changed: false,
                output_changed: false,
            }
        },
        Some(data) => {
            let (title_change, title) = text_change(&data.title, title);
            let (app_id_change, app_id) = text_change(&data.app_id, app_id);
            let states_changed = !same_states(&data.states, &states);
            let output_changed = data.output != output;
            *record = Some(ToplevelRecord { title, app_id, states, output });
            ToplevelRefresh {
                created: false,
                title: title_change,
                app_id: app_id_change,
                states_changed,
                output_changed,
            }
        },
    }
}

/// A refresh of a window whose record already holds its current values
/// tells clients nothing: every change a refresh reports of a known window
/// is a real difference between the record and the window.
pub proof fn law_refresh_toplevel_settles(
    before: ToplevelRecord,
    title: Option<String>,
    app_id: Option<String>,
    states: Seq<ToplevelState>,
    output: Option<u64>,
    r: ToplevelRefresh,
)
    requires
        text_change_ok(r.title, before.title, title),
        text_change_ok(r.app_id, before.app_id, app_id),
        r.states_changed == (before.states@ != states),
        r.output_changed == (before.output != output),
    ensures
        r.spec_something_changed() ==> text_view(before.title) != text_view(title) || text_view(
            before.app_id,
        ) != text_view(app_id) || before.states@ != states || before.output != output,
        (text_view(before.title) == text_view(title) && text_view(before.app_id) == text_view(app_id)
            && before.states@ == states && before.output == output) ==> !r.spec_something_changed(),
{
}

} // verus!

//! `xdg_toplevel`: a window.
use crate::collections::Child;
use crate::protocols::xdg::backend::XdgBackend;
use crate::types::{ObjectId, Vector2};
use vstd::prelude::*;

verus! {

/// A window of the `xdg_surface` at the place `xdg_surface`.
pub struct Toplevel {
    pub id: ObjectId,
    pub wl_surface: usize,
    pub xdg_surface: usize,
    /// Whether anything still refers to the toplevel.
    pub alive: bool,
    /// The panel item that shows the toplevel, once there is one.
    pub mapped: Option<XdgBackend>,
    pub last_committed_res: Option<Vector2<usize>>,
    pub title: Option<String>,
    pub app_id: Option<String>,
}

#[verifier::ext_equal]
pub ghost struct ToplevelView {
    pub id: ObjectId,
    pub wl_surface: usize,
    pub xdg_surface: usize,
    pub alive: bool,
    /// The children of the panel item, once there is one.
    pub mapped: Option<Map<u64, Child>>,
    pub last_committed_res: Option<Vector2<usize>>,
    pub title: Option<String>,
    pub app_id: Option<String>,
}

impl View for Toplevel {
    type V = ToplevelView;

    open spec fn view(&self) -> ToplevelView {
        ToplevelView {
            id: self.id,
            wl_surface: self.wl_surface,
            xdg_surface: self.xdg_surface,
            alive: self.alive,
            mapped: match self.mapped {
                Some(backend) => Some(backend@),
                None => None,
            },
            last_committed_res: self.last_committed_res,
            title: self.title,
            app_id: self.app_id,
        }
    }
}

impl ToplevelView {
    /// A window that is not shown and was told nothing of itself.
    pub open spec fn new(id: ObjectId, wl_surface: usize, xdg_surface: usize) -> ToplevelView {
        ToplevelView {
            id,
            wl_surface,
            xdg_surface,
            alive: true,
            mapped: None,
            last_committed_res: None,
            title: None,
            app_id: None,
        }
    }
}

impl Toplevel {
    pub fn new(id: ObjectId, wl_surface: usize, xdg_surface: usize) -> (toplevel: Self)
        ensures
            toplevel@ == ToplevelView::new(id, wl_surface, xdg_surface),
    {
        Toplevel {
            id,
            wl_surface,
            xdg_surface,
            alive: true,
            mapped: None,
            last_committed_res: None,
            title: None,
            app_id: None,
        }
    }

    /// Ends the toplevel: nothing refers to it any more.
    pub fn release(&mut self)
        ensures
            final(self)@ == (ToplevelView { alive: false, ..old(self)@ }),
    {
        self.alive = false;
    }
}

/// An environment variable, as its name and its value.
pub type Variable = (String, String);

/// The names and values of variables.
pub open spec fn texts(vars: Seq<Variable>) -> Seq<(Seq<char>, Seq<char>)> {
    vars.map_values(|v: Variable| (v.0@, v.1@))
}

/// A variable that is there where its value is.
pub open spec fn optional_var(name: Seq<char>, value: Option<String>) -> Seq<(Seq<char>, Seq<char>)> {
    match value {
        Some(value) => seq![(name, value@)],
        None => Seq::empty(),
    }
}

fn push_var(vars: &mut Vec<Variable>, name: &str, value: String)
    ensures
        texts(final(vars)@) == texts(old(vars)@).push((name@, value@)),
{
    vars.push((name.to_string(), value));
    assert(texts(vars@) =~= texts(old(vars)@).push((name@, value@)));
}

/// The environment in which the panel shell of the user's choice is started for a toplevel.
pub fn panel_shell_vars(
    spatial_token: Option<String>,
    app_id: Option<String>,
    title: Option<String>,
) -> (vars: Vec<Variable>)
    ensures
        texts(vars@) == shell_texts(spatial_token, app_id, title),
{
    let mut vars: Vec<Variable> = Vec::new();
    assert(texts(vars@) =~= Seq::empty());
    push_var(&mut vars, "SDXR_WL_DEFAULT_PANEL_SHELL", "1".to_string());
    if let Some(token) = spatial_token {
        push_var(&mut vars, "STARDUST_STARTUP_TOKEN", token);
    }
    if let Some(app_id) = app_id {
        push_var(&mut vars, "SDXR_WL_APP_ID", app_id);
    }
    if let Some(title) = title {
        push_var(&mut vars, "SDXR_WL_TITLE", title);
    }
    vars
}

/// A copy of a text that may be there.
fn copy_text(text: &Option<String>) -> (copy: Option<String>)
    ensures
        copy == *text,
{
    match text {
        Some(text) => Some(text.clone()),
        None => None,
    }
}

/// The variables that a panel shell is started with for a toplevel.
pub open spec fn shell_texts(
    spatial_token: Option<String>,
    app_id: Option<String>,
    title: Option<String>,
) -> Seq<(Seq<char>, Seq<char>)> {
    seq![("SDXR_WL_DEFAULT_PANEL_SHELL"@, "1"@)] + optional_var(
        "STARDUST_STARTUP_TOKEN"@,
        spatial_token,
    ) + optional_var("SDXR_WL_APP_ID"@, app_id) + optional_var("SDXR_WL_TITLE"@, title)
}

/// The panel shell that is launched when a toplevel is mapped, and its environment: the one
/// that the user has put at `path`, if anything is present there. `path` is given where it is
/// a text, and `token` is the startup token of the client, if it has one.
pub fn shell_to_launch(
    path: Option<String>,
    present: bool,
    token: Option<String>,
    toplevel: &Toplevel,
) -> (launch: Option<(String, Vec<Variable>)>)
    ensures
        match launch {
            Some((program, vars)) => {
                &&& present
                &&& path == Some(program)
                &&& texts(vars@) == shell_texts(token, toplevel@.app_id, toplevel@.title)
            },
            None => !present || path is None,
        },
{
    if !present {
        return None;
    }
    match path {
        Some(program) => {
            let app_id: Option<String> = copy_text(&toplevel.app_id);
            let title: Option<String> = copy_text(&toplevel.title);
            Some((program, panel_shell_vars(token, app_id, title)))
        },
        None => None,
    }
}

/// Where a toplevel that is mapped shows up.
#[derive(Debug, Clone, Copy, PartialEq, Eq)]
pub enum StartupPlace<P> {
    /// At the place that the server knows by the startup token of the client.
    Known(P),
    /// At a new place at the root.
    Root,
}

/// Where a toplevel that is mapped shows up. `found` is the place that the server knows by the
/// startup token of the client, where the client has a token and the server knows it.
pub fn startup_place<P>(found: Option<P>) -> (place: StartupPlace<P>)
    ensures
        place == match found {
            Some(spatial) => StartupPlace::Known(spatial),
            None => StartupPlace::<P>::Root,
        },
{
    match found {
        Some(spatial) => StartupPlace::Known(spatial),
        None => StartupPlace::Root,
    }
}

/// A panel shell is always told that it is the default one, and it is told of the token, of
/// the app id and of the title exactly where they are there, and as they are.
pub proof fn shells_know_the_toplevel(
    token: Option<String>,
    app_id: Option<String>,
    title: Option<String>,
    value: Seq<char>,
)
    ensures
        ({
            let vars = shell_texts(token, app_id, title);
            &&& vars.contains(("SDXR_WL_DEFAULT_PANEL_SHELL"@, value)) <==> value == "1"@
            &&& vars.contains(("STARDUST_STARTUP_TOKEN"@, value)) <==> (token matches Some(t)
                && t@ == value)
            &&& vars.contains(("SDXR_WL_APP_ID"@, value)) <==> (app_id matches Some(a) && a@
                == value)
            &&& vars.contains(("SDXR_WL_TITLE"@, value)) <==> (title matches Some(t) && t@
                == value)
        }),
{
    reveal_strlit("SDXR_WL_DEFAULT_PANEL_SHELL");
    reveal_strlit("STARDUST_STARTUP_TOKEN");
    reveal_strlit("SDXR_WL_APP_ID");
    reveal_strlit("SDXR_WL_TITLE");
    assert("SDXR_WL_DEFAULT_PANEL_SHELL"@.len() == 27);
    assert("STARDUST_STARTUP_TOKEN"@.len() == 22);
    assert("SDXR_WL_APP_ID"@.len() == 14);
    assert("SDXR_WL_TITLE"@.len() == 13);
    let first = seq![("SDXR_WL_DEFAULT_PANEL_SHELL"@, "1"@)];
    let tokens = optional_var("STARDUST_STARTUP_TOKEN"@, token);
    let app_ids = optional_var("SDXR_WL_APP_ID"@, app_id);
    let titles = optional_var("SDXR_WL_TITLE"@, title);
    lemma_joined(first, tokens, app_ids, titles, ("SDXR_WL_DEFAULT_PANEL_SHELL"@, value));
    lemma_joined(first, tokens, app_ids, titles, ("STARDUST_STARTUP_TOKEN"@, value));
    lemma_joined(first, tokens, app_ids, titles, ("SDXR_WL_APP_ID"@, value));
    lemma_joined(first, tokens, app_ids, titles, ("SDXR_WL_TITLE"@, value));
    lemma_single(first, ("SDXR_WL_DEFAULT_PANEL_SHELL"@, "1"@));
    if let Some(t) = token {
        lemma_single(tokens, ("STARDUST_STARTUP_TOKEN"@, t@));
    }
    if let Some(a) = app_id {
        lemma_single(app_ids, ("SDXR_WL_APP_ID"@, a@));
    }
    if let Some(t) = title {
        lemma_single(titles, ("SDXR_WL_TITLE"@, t@));
    }
}

/// Variables are told by their names and values, one by one.
pub proof fn variables_are_told_as_texts(vars: Seq<Variable>, i: int)
    requires
        0 <= i < vars.len(),
    ensures
        texts(vars).len() == vars.len(),
        texts(vars)[i].0 == vars[i].0@,
        texts(vars)[i].1 == vars[i].1@,
{
}

proof fn lemma_single<T>(list: Seq<T>, only: T)
    requires
        list == seq![only],
    ensures
        forall|x: T| #[trigger] list.contains(x) <==> x == only,
{
    assert(list[0] == only);
}

proof fn lemma_joined<T>(a: Seq<T>, b: Seq<T>, c: Seq<T>, d: Seq<T>, x: T)
    ensures
        (a + b + c + d).contains(x) <==> a.contains(x) || b.contains(x) || c.contains(x)
            || d.contains(x),
{
    let all = a + b + c + d;
    if all.contains(x) {
        let i = choose|i: int| 0 <= i < all.len() && all[i] == x;
        if i < a.len() {
            assert(a[i] == x);
        } else if i < a.len() + b.len() {
            assert(b[i - a.len()] == x);
        } else if i < a.len() + b.len() + c.len() {
            assert(c[i - a.len() - b.len()] == x);
        } else {
            assert(d[i - a.len() - b.len() - c.len()] == x);
        }
    }
    if a.contains(x) {
        let i = choose|i: int| 0 <= i < a.len() && a[i] == x;
        assert(all[i] == x);
    }
    if b.contains(x) {
        let i = choose|i: int| 0 <= i < b.len() && b[i] == x;
        assert(all[a.len() + i] == x);
    }
    if c.contains(x) {
        let i = choose|i: int| 0 <= i < c.len() && c[i] == x;
        assert(all[a.len() + b.len() + i] == x);
    }
    if d.contains(x) {
        let i = choose|i: int| 0 <= i < d.len() && d[i] == x;
        assert(all[a.len() + b.len() + c.len() + i] == x);
    }
}

} // verus!

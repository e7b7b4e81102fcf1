//! State that servers hand to a client for its next request, kept in one place
//! per kind of client.

use vstd::prelude::*;

use crate::paths;
use crate::text;

verus! {

// ---------------------------------------------------------------------
// Surfaces
// ---------------------------------------------------------------------

/// A kind of client.
#[derive(Clone, Copy, Debug, PartialEq, Eq, Structural)]
pub enum HttpStateSurface {
    CodexCli,
    CodexTui,
    CodexExec,
    CodexVscode,
    CodexDesktop,
    CodexDesktopSsh,
    CodexRemoteControl,
}

impl HttpStateSurface {
    /// The name under which the kind of client makes itself known.
    pub open spec fn client_name(self) -> Seq<char> {
        match self {
            HttpStateSurface::CodexCli => "codex_cli"@,
            HttpStateSurface::CodexTui => "codex-tui"@,
            HttpStateSurface::CodexExec => "codex_exec"@,
            HttpStateSurface::CodexVscode => "codex_vscode"@,
            HttpStateSurface::CodexDesktop => "codex_desktop"@,
            HttpStateSurface::CodexDesktopSsh => "codex_desktop_ssh"@,
            HttpStateSurface::CodexRemoteControl => "codex_remote_control"@,
        }
    }

    /// The name under which state is kept for the kind of client.
    pub open spec fn name(self) -> Seq<char> {
        match self {
            HttpStateSurface::CodexTui => "codex_tui"@,
            _ => self.client_name(),
        }
    }

    /// The kind of client with the name.
    pub fn try_from_app_server_client_name(client_name: &str) -> (r: Option<Self>)
        ensures
            match r {
                Some(surface) => surface.client_name() == client_name@,
                None => forall|s: HttpStateSurface| #[trigger] s.client_name() != client_name@,
            },
    {
        if text::str_eq(client_name, "codex_cli") {
            Some(HttpStateSurface::CodexCli)
        } else if text::str_eq(client_name, "codex-tui") {
            Some(HttpStateSurface::CodexTui)
        } else if text::str_eq(client_name, "codex_exec") {
            Some(HttpStateSurface::CodexExec)
        } else if text::str_eq(client_name, "codex_vscode") {
            Some(HttpStateSurface::CodexVscode)
        } else if text::str_eq(client_name, "codex_desktop") {
            Some(HttpStateSurface::CodexDesktop)
        } else if text::str_eq(client_name, "codex_desktop_ssh") {
            Some(HttpStateSurface::CodexDesktopSsh)
        } else if text::str_eq(client_name, "codex_remote_control") {
            Some(HttpStateSurface::CodexRemoteControl)
        } else {
            None
        }
    }

    /// The kind of client with the name; clients that are not known share the
    /// state of the command line.
    pub fn from_app_server_client_name(client_name: &str) -> (r: Self)
        ensures
            r.client_name() == client_name@ || (r == HttpStateSurface::CodexCli && forall|s: HttpStateSurface|
                #[trigger] s.client_name() != client_name@),
    {
        match Self::try_from_app_server_client_name(client_name) {
            Some(surface) => surface,
            None => HttpStateSurface::CodexCli,
        }
    }

    /// The name under which state is kept for the kind of client.
    pub fn as_str(self) -> (r: &'static str)
        ensures
            r@ == self.name(),
    {
        match self {
            HttpStateSurface::CodexCli => "codex_cli",
            HttpStateSurface::CodexTui => "codex_tui",
            HttpStateSurface::CodexExec => "codex_exec",
            HttpStateSurface::CodexVscode => "codex_vscode",
            HttpStateSurface::CodexDesktop => "codex_desktop",
            HttpStateSurface::CodexDesktopSsh => "codex_desktop_ssh",
            HttpStateSurface::CodexRemoteControl => "codex_remote_control",
        }
    }

    /// The place of the kind among all kinds.
    pub open spec fn place(self) -> int {
        match self {
            HttpStateSurface::CodexCli => 0,
            HttpStateSurface::CodexTui => 1,
            HttpStateSurface::CodexExec => 2,
            HttpStateSurface::CodexVscode => 3,
            HttpStateSurface::CodexDesktop => 4,
            HttpStateSurface::CodexDesktopSsh => 5,
            HttpStateSurface::CodexRemoteControl => 6,
        }
    }

    fn index(self) -> (r: usize)
        ensures
            r == self.place(),
            r < 7,
    {
        match self {
            HttpStateSurface::CodexCli => 0,
            HttpStateSurface::CodexTui => 1,
            HttpStateSurface::CodexExec => 2,
            HttpStateSurface::CodexVscode => 3,
            HttpStateSurface::CodexDesktop => 4,
            HttpStateSurface::CodexDesktopSsh => 5,
            HttpStateSurface::CodexRemoteControl => 6,
        }
    }
}

/// No two kinds of client share a name, nor a place where their state is kept.
pub proof fn law_surfaces_are_apart(a: HttpStateSurface, b: HttpStateSurface)
    ensures
        a.client_name() == b.client_name() ==> a == b,
        a.name() == b.name() ==> a == b,
        a.place() == b.place() ==> a == b,
{
    reveal_strlit("codex_cli");
    reveal_strlit("codex-tui");
    reveal_strlit("codex_tui");
    reveal_strlit("codex_exec");
    reveal_strlit("codex_vscode");
    reveal_strlit("codex_desktop");
    reveal_strlit("codex_desktop_ssh");
    reveal_strlit("codex_remote_control");
    if a.client_name() == b.client_name() {
        assert(a.client_name().len() == b.client_name().len());
        assert(a.client_name()[6] == b.client_name()[6]);
    }
    if a.name() == b.name() {
        assert(a.name().len() == b.name().len());
        assert(a.name()[6] == b.name()[6]);
    }
}

// ---------------------------------------------------------------------
// The state of a surface
// ---------------------------------------------------------------------

/// A state that was written, with the generation that was current then.
pub struct HttpStateFile {
    pub state: String,
    pub generation: Option<String>,
}

/// What is kept for a kind of client: the state that was written last, if any,
/// and the current generation, which changes when the state is cleared.
pub struct SurfaceFiles {
    pub state: Option<HttpStateFile>,
    pub generation: Option<String>,
}

/// A state that was written, in characters.
#[verifier::ext_equal]
pub struct StateView {
    pub state: Seq<char>,
    pub generation: Option<Seq<char>>,
}

/// What is kept for a kind of client, in characters.
#[verifier::ext_equal]
pub struct FilesView {
    pub state: Option<StateView>,
    pub generation: Option<Seq<char>>,
}

impl View for HttpStateFile {
    type V = StateView;

    open spec fn view(&self) -> StateView {
        StateView { state: self.state@, generation: text::opt_view(self.generation) }
    }
}

impl View for SurfaceFiles {
    type V = FilesView;

    open spec fn view(&self) -> FilesView {
        FilesView {
            state: match self.state {
                Some(file) => Some(file@),
                None => None,
            },
            generation: text::opt_view(self.generation),
        }
    }
}

/// The state that can be seen: the one that was written last, if that was in
/// the current generation.
pub open spec fn visible(files: FilesView) -> Option<Seq<char>> {
    match files.state {
        Some(file) => if file.generation == files.generation {
            Some(file.state)
        } else {
            None
        },
        None => None,
    }
}

/// What is kept after a state was written in the current generation.
pub open spec fn after_set(files: FilesView, state: Seq<char>) -> FilesView {
    FilesView { state: Some(StateView { state, generation: files.generation }), generation: files.generation }
}

/// What is kept after the state was cleared and a generation was begun.
pub open spec fn after_clear(generation: Seq<char>) -> FilesView {
    FilesView { state: None, generation: Some(generation) }
}

/// What is kept after a state was written by someone who had seen the
/// generation.
pub open spec fn after_stray_write(files: FilesView, state: Seq<char>, seen: Option<Seq<char>>) -> FilesView {
    FilesView { state: Some(StateView { state, generation: seen }), generation: files.generation }
}

fn same_generation(a: &Option<String>, b: &Option<String>) -> (r: bool)
    ensures
        r == (text::opt_view(*a) == text::opt_view(*b)),
{
    match (a, b) {
        (Some(a), Some(b)) => text::str_eq(a.as_str(), b.as_str()),
        (None, None) => true,
        _ => false,
    }
}

impl SurfaceFiles {
    /// The state that can be seen.
    pub fn visible_state(&self) -> (r: Option<String>)
        ensures
            text::opt_view(r) == visible(self@),
    {
        match &self.state {
            Some(file) => if same_generation(&file.generation, &self.generation) {
                Some(file.state.clone())
            } else {
                None
            },
            None => None,
        }
    }

    /// What to write in order to set the state.
    pub fn write_of(&self, state: String) -> (r: HttpStateFile)
        ensures
            r@ == (StateView { state: state@, generation: self@.generation }),
    {
        HttpStateFile { state, generation: text::clone_opt(&self.generation) }
    }

    /// What to write in order to replace the state, where it is the expected
    /// one.
    pub fn rotation(&self, expected_state: &str, next_state: String) -> (r: Option<HttpStateFile>)
        ensures
            match r {
                Some(file) => visible(self@) == Some(expected_state@) && file@ == (StateView {
                    state: next_state@,
                    generation: self@.generation,
                }),
                None => visible(self@) != Some(expected_state@),
            },
    {
        match self.visible_state() {
            Some(state) => if text::str_eq(state.as_str(), expected_state) {
                Some(self.write_of(next_state))
            } else {
                None
            },
            None => None,
        }
    }

    /// Whether a state that was written in the generation is the current one
    /// still.
    pub fn rotation_holds(&self, written_in: &Option<String>) -> (r: bool)
        ensures
            r == (text::opt_view(*written_in) == self@.generation),
    {
        same_generation(written_in, &self.generation)
    }
}

/// A state that is set is seen.
pub proof fn law_set_state_is_seen(files: FilesView, state: Seq<char>)
    ensures
        visible(after_set(files, state)) == Some(state),
        after_set(files, state).generation == files.generation,
{
}

/// Once a new generation is begun nothing is seen, also where someone who has
/// not noticed writes afterwards.
pub proof fn law_clear_hides_stale_writes(files: FilesView, generation: Seq<char>, state: Seq<char>)
    requires
        files.generation != Some(generation),
    ensures
        visible(after_clear(generation)) is None,
        visible(after_stray_write(after_clear(generation), state, files.generation)) is None,
{
}

// ---------------------------------------------------------------------
// The store
// ---------------------------------------------------------------------

/// What is kept for all kinds of clients, in a directory.
pub struct HttpStateStore {
    codex_home: String,
    files: Vec<SurfaceFiles>,
}

/// `uuid::Uuid::new_v4` with its `Display` text: some text, of which nothing is
/// said, as it is drawn at random.
#[verifier::external_body]
fn random_generation() -> (r: String) {
    uuid::Uuid::new_v4().to_string()
}

impl HttpStateStore {
    /// The directory that the store is kept in.
    pub closed spec fn home(self) -> Seq<char> {
        self.codex_home@
    }

    /// What is kept for the kind of client.
    pub closed spec fn kept(self, surface: HttpStateSurface) -> FilesView {
        self.files@[surface.place()]@
    }

    /// Whether something is kept for every kind of client.
    pub closed spec fn wf(self) -> bool {
        self.files@.len() == 7
    }

    /// A store in which nothing is kept yet.
    pub fn new(codex_home: String) -> (r: Self)
        ensures
            r.wf(),
            r.home() == codex_home@,
            forall|s: HttpStateSurface| #[trigger] r.kept(s) == (FilesView { state: None, generation: None }),
    {
        let mut files: Vec<SurfaceFiles> = Vec::new();
        let mut i: usize = 0;
        while i < 7
            invariant
                i <= 7,
                files@.len() == i,
                forall|k: int|
                    0 <= k < i ==> (#[trigger] files@[k])@ == (FilesView { state: None, generation: None }),
            decreases 7 - i,
        {
            files.push(SurfaceFiles { state: None, generation: None });
            i = i + 1;
        }
        HttpStateStore { codex_home, files }
    }

    /// Takes over what was read for a kind of client.
    pub fn load(&mut self, surface: HttpStateSurface, files: SurfaceFiles)
        requires
            old(self).wf(),
        ensures
            final(self).wf(),
            final(self).home() == old(self).home(),
            final(self).kept(surface) == files@,
            forall|s: HttpStateSurface| s != surface ==> #[trigger] final(self).kept(s) == old(self).kept(s),
    {
        self.files.set(surface.index(), files);
        proof {
            assert forall|s: HttpStateSurface| s != surface implies #[trigger] self.kept(s) == old(self).kept(s) by {
                law_surfaces_are_apart(s, surface);
            }
        }
    }

    /// The file that the state of the kind of client is kept in.
    pub fn state_path(&self, surface: HttpStateSurface) -> (r: String)
        ensures
            r@ == paths::joined_path(paths::joined_path(self.home(), "state"@), surface.name() + ".json"@),
    {
        let dir = paths::join(self.codex_home.as_str(), "state");
        let mut name = surface.as_str().to_string();
        name.push_str(".json");
        paths::join(dir.as_str(), name.as_str())
    }

    /// The file that the generation of the kind of client is kept in.
    pub fn generation_path(&self, surface: HttpStateSurface) -> (r: String)
        ensures
            r@ == paths::joined_path(paths::joined_path(self.home(), "state"@), surface.name() + ".generation.json"@),
    {
        let dir = paths::join(self.codex_home.as_str(), "state");
        let mut name = surface.as_str().to_string();
        name.push_str(".generation.json");
        paths::join(dir.as_str(), name.as_str())
    }

    /// The state of the kind of client.
    pub fn get(&self, surface: HttpStateSurface) -> (r: Option<String>)
        requires
            self.wf(),
        ensures
            text::opt_view(r) == visible(self.kept(surface)),
    {
        self.files[surface.index()].visible_state()
    }

    /// Writes the state of the kind of client.
    pub fn set(&mut self, surface: HttpStateSurface, state: String)
        requires
            old(self).wf(),
        ensures
            final(self).wf(),
            final(self).home() == old(self).home(),
            final(self).kept(surface) == after_set(old(self).kept(surface), state@),
            forall|s: HttpStateSurface| s != surface ==> #[trigger] final(self).kept(s) == old(self).kept(s),
    {
        let file = self.files[surface.index()].write_of(state);
        self.write_state(surface, file);
    }

    /// Writes a state that belongs to a generation.
    pub fn write_state(&mut self, surface: HttpStateSurface, file: HttpStateFile)
        requires
            old(self).wf(),
        ensures
            final(self).wf(),
            final(self).home() == old(self).home(),
            final(self).kept(surface) == (FilesView { state: Some(file@), generation: old(self).kept(surface).generation }),
            forall|s: HttpStateSurface| s != surface ==> #[trigger] final(self).kept(s) == old(self).kept(s),
    {
        let generation = text::clone_opt(&self.files[surface.index()].generation);
        let files = SurfaceFiles { state: Some(file), generation };
        self.load(surface, files);
    }

    /// Clears the state of the kind of client, and begins the generation.
    pub fn clear_into(&mut self, surface: HttpStateSurface, generation: String)
        requires
            old(self).wf(),
        ensures
            final(self).wf(),
            final(self).home() == old(self).home(),
            final(self).kept(surface) == after_clear(generation@),
            forall|s: HttpStateSurface| s != surface ==> #[trigger] final(self).kept(s) == old(self).kept(s),
    {
        self.load(surface, SurfaceFiles { state: None, generation: Some(generation) });
    }

    /// Clears the state of the kind of client, and begins a generation that is
    /// drawn at random.
    pub fn clear(&mut self, surface: HttpStateSurface)
        requires
            old(self).wf(),
        ensures
            final(self).wf(),
            final(self).home() == old(self).home(),
            exists|generation: Seq<char>| final(self).kept(surface) == #[trigger] after_clear(generation),
            visible(final(self).kept(surface)) is None,
            forall|s: HttpStateSurface| s != surface ==> #[trigger] final(self).kept(s) == old(self).kept(s),
    {
        let generation = random_generation();
        let ghost begun = generation@;
        self.clear_into(surface, generation);
        assert(self.kept(surface) == after_clear(begun));
    }

    /// Writes the next state where the expected one is seen, and says whether it
    /// did.
    pub fn compare_and_set(&mut self, surface: HttpStateSurface, expected_state: &str, next_state: String) -> (r: bool)
        requires
            old(self).wf(),
        ensures
            final(self).wf(),
            final(self).home() == old(self).home(),
            r == (visible(old(self).kept(surface)) == Some(expected_state@)),
            final(self).kept(surface) == (if r {
                after_set(old(self).kept(surface), next_state@)
            } else {
                old(self).kept(surface)
            }),
            forall|s: HttpStateSurface| s != surface ==> #[trigger] final(self).kept(s) == old(self).kept(s),
    {
        let rotation = self.files[surface.index()].rotation(expected_state, next_state);
        match rotation {
            Some(file) => {
                self.write_state(surface, file);
                true
            },
            None => false,
        }
    }
}

/// The store of a session, with the kind of client that it is of.
pub struct HttpStateContext {
    pub store: HttpStateStore,
    pub surface: HttpStateSurface,
}

impl HttpStateContext {
    /// A session of the kind of client.
    pub fn new(codex_home: String, surface: HttpStateSurface) -> (r: Self)
        ensures
            r.store.wf(),
            r.store.home() == codex_home@,
            r.surface == surface,
            forall|s: HttpStateSurface| #[trigger] r.store.kept(s) == (FilesView { state: None, generation: None }),
    {
        HttpStateContext { store: HttpStateStore::new(codex_home), surface }
    }

    /// The kind of client that the session is of.
    pub fn surface(&self) -> (r: HttpStateSurface)
        ensures
            r == self.surface,
    {
        self.surface
    }

    /// Makes the session one of the kind of client, and says whether it was none.
    pub fn set_surface(&mut self, surface: HttpStateSurface) -> (r: bool)
        ensures
            final(self).surface == surface,
            final(self).store == old(self).store,
            r == (old(self).surface != surface),
    {
        if self.surface == surface {
            return false;
        }
        self.surface = surface;
        true
    }

    /// The state of the kind of client.
    pub fn get_for_surface(&self, surface: HttpStateSurface) -> (r: Option<String>)
        requires
            self.store.wf(),
        ensures
            text::opt_view(r) == visible(self.store.kept(surface)),
    {
        self.store.get(surface)
    }

    /// Writes the next state where the expected one is seen, and says whether it
    /// did.
    pub fn compare_and_set_for_surface(
        &mut self,
        surface: HttpStateSurface,
        expected_state: &str,
        next_state: String,
    ) -> (r: bool)
        requires
            old(self).store.wf(),
        ensures
            final(self).store.wf(),
            final(self).store.home() == old(self).store.home(),
            final(self).surface == old(self).surface,
            r == (visible(old(self).store.kept(surface)) == Some(expected_state@)),
            final(self).store.kept(surface) == (if r {
                after_set(old(self).store.kept(surface), next_state@)
            } else {
                old(self).store.kept(surface)
            }),
            forall|s: HttpStateSurface|
                s != surface ==> #[trigger] final(self).store.kept(s) == old(self).store.kept(s),
    {
        self.store.compare_and_set(surface, expected_state, next_state)
    }
}

/// The clones of the context of one session. Each is known by a number; all of
/// them share one selection of the kind of client.
pub struct HttpStateClones {
    context: HttpStateContext,
    count: usize,
}

impl HttpStateClones {
    /// Whether there is a clone with the number.
    pub closed spec fn has(self, clone: int) -> bool {
        0 <= clone < self.count
    }

    /// How many clones there are.
    pub closed spec fn len(self) -> nat {
        self.count as nat
    }

    /// The kind of client that the clone sees.
    pub closed spec fn seen_by(self, clone: int) -> HttpStateSurface {
        self.context.surface
    }

    /// Whether all clones see the same kind of client.
    pub open spec fn in_sync(self) -> bool {
        forall|a: int, b: int| self.has(a) && self.has(b) ==> #[trigger] self.seen_by(a) == #[trigger] self.seen_by(b)
    }

    /// A context with the number zero, of which there is no other clone.
    pub fn new(context: HttpStateContext) -> (r: Self)
        ensures
            r.in_sync(),
            r.len() == 1,
            r.has(0),
            r.seen_by(0) == context.surface,
    {
        HttpStateClones { context, count: 1 }
    }

    /// Makes a clone, and gives its number.
    pub fn make(&mut self, of: usize) -> (r: usize)
        requires
            old(self).has(of as int),
            old(self).len() < usize::MAX,
        ensures
            r == old(self).len(),
            final(self).len() == old(self).len() + 1,
            final(self).in_sync(),
            final(self).has(r as int),
            forall|c: int| old(self).has(c) ==> #[trigger] final(self).has(c) && final(self).seen_by(c)
                == old(self).seen_by(c),
            final(self).seen_by(r as int) == old(self).seen_by(of as int),
    {
        let number = self.count;
        self.count = self.count + 1;
        number
    }

    /// The kind of client that the clone sees.
    pub fn surface(&self, clone: usize) -> (r: HttpStateSurface)
        requires
            self.has(clone as int),
        ensures
            r == self.seen_by(clone as int),
    {
        self.context.surface()
    }

    /// Selects the kind of client through one of the clones, and says whether
    /// another was selected before.
    pub fn set_surface(&mut self, clone: usize, surface: HttpStateSurface) -> (r: bool)
        requires
            old(self).has(clone as int),
        ensures
            selects(*old(self), *final(self), clone as int, surface, r),
    {
        self.context.set_surface(surface)
    }
}

/// What selecting a kind of client through a clone comes to.
pub open spec fn selects(
    before: HttpStateClones,
    after: HttpStateClones,
    clone: int,
    surface: HttpStateSurface,
    changed: bool,
) -> bool {
    &&& changed == (before.seen_by(clone) != surface)
    &&& after.len() == before.len()
    &&& forall|c: int| #[trigger] after.has(c) <==> before.has(c)
    &&& forall|c: int| after.has(c) ==> #[trigger] after.seen_by(c) == surface
}

/// What is selected through one clone is seen by every other, and selecting it
/// again through any of them changes nothing.
pub proof fn law_clones_share_the_selection(
    first: HttpStateClones,
    second: HttpStateClones,
    third: HttpStateClones,
    clone: int,
    other: int,
    surface: HttpStateSurface,
    changed: bool,
    again: bool,
)
    requires
        first.has(clone),
        first.has(other),
        selects(first, second, clone, surface, changed),
        selects(second, third, other, surface, again),
    ensures
        changed == (first.seen_by(clone) != surface),
        second.seen_by(clone) == surface,
        second.seen_by(other) == surface,
        second.in_sync(),
        !again,
{
    assert(second.has(clone) && second.has(other));
}

/// A state is seen exactly where it was written in the generation that holds
/// now: a state of another generation, or of none, is as good as none.
pub proof fn law_state_is_seen_in_its_own_generation(files: FilesView, state: Seq<char>)
    ensures
        visible(files) == Some(state) <==> files.state == Some(StateView { state, generation: files.generation }),
        visible(files) is None <==> (files.state matches Some(file) ==> file.generation != files.generation),
{
}

/// Clearing begins the generation, and leaves no state; a state that is set in
/// it is seen again, and a late write of another generation is not.
pub proof fn law_clear_begins_a_generation(generation: Seq<char>, state: Seq<char>, seen: Option<Seq<char>>)
    ensures
        after_clear(generation).generation == Some(generation),
        after_clear(generation).state is None,
        visible(after_set(after_clear(generation), state)) == Some(state),
        visible(after_stray_write(after_clear(generation), state, seen)) == (if seen == Some(generation) {
            Some(state)
        } else {
            None
        }),
{
}

/// The name under which the files of a kind of client are kept is the name that
/// the client gives, with the hyphen of the one that has one written as an
/// underscore.
pub proof fn law_surfaces_are_named_for_their_clients(s: HttpStateSurface)
    ensures
        s.name().len() == s.client_name().len(),
        forall|i: int|
            0 <= i < s.name().len() ==> #[trigger] s.name()[i] == (if s.client_name()[i] == '-' {
                '_'
            } else {
                s.client_name()[i]
            }),
        s.client_name().contains('-') ==> s is CodexTui,
{
    reveal_strlit("codex_cli");
    reveal_strlit("codex-tui");
    reveal_strlit("codex_tui");
    reveal_strlit("codex_exec");
    reveal_strlit("codex_vscode");
    reveal_strlit("codex_desktop");
    reveal_strlit("codex_desktop_ssh");
    reveal_strlit("codex_remote_control");
}

/// The kinds of client and the names that they give.
pub proof fn law_client_names()
    ensures
        HttpStateSurface::CodexCli.client_name() == "codex_cli"@,
        HttpStateSurface::CodexTui.client_name() == "codex-tui"@,
        HttpStateSurface::CodexTui.name() == "codex_tui"@,
        HttpStateSurface::CodexExec.client_name() == "codex_exec"@,
        HttpStateSurface::CodexVscode.client_name() == "codex_vscode"@,
        HttpStateSurface::CodexDesktop.client_name() == "codex_desktop"@,
        HttpStateSurface::CodexDesktopSsh.client_name() == "codex_desktop_ssh"@,
        HttpStateSurface::CodexRemoteControl.client_name() == "codex_remote_control"@,
{
}

} // verus!

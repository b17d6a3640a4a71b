//! The capabilities that one downstream server registered while it runs, and how
//! far its workspace diagnostics have come.

use crate::outside::{json_flag, json_flags};
use crate::seqs::lemma_take_contains;
use crate::settings::copy_json;
use crate::table::Table;
use crate::text::{same_text, texts};
use vstd::prelude::*;

verus! {

/// One capability that a server registered.
#[derive(Debug)]
pub struct Registration {
    pub id: String,
    pub method: String,
    pub register_options: Option<serde_json::Value>,
}

/// One capability that a server takes back.
#[derive(Debug)]
pub struct Unregistration {
    pub id: String,
    pub method: String,
}

/// The mathematical content of a [`Registration`].
pub struct RegistrationView {
    pub id: Seq<char>,
    pub method: Seq<char>,
    pub options: Option<serde_json::Value>,
}

impl View for Registration {
    type V = RegistrationView;

    open spec fn view(&self) -> RegistrationView {
        RegistrationView { id: self.id@, method: self.method@, options: self.register_options }
    }
}

impl Clone for Registration {
    fn clone(&self) -> (copy: Self)
        ensures
            copy@ == self@,
    {
        Registration {
            id: self.id.clone(),
            method: self.method.clone(),
            register_options: copy_json(&self.register_options),
        }
    }
}

/// What a list of registrations says.
pub open spec fn registration_views(list: Seq<Registration>) -> Seq<RegistrationView> {
    list.map_values(|registration: Registration| registration@)
}

/// Whether a registration's options switch a flag on.
pub open spec fn switches_on(registration: RegistrationView, flag: Seq<char>) -> bool {
    registration.options matches Some(options) && json_flags(options).contains_key(flag)
        && json_flags(options)[flag]
}

/// Whether a registration provides diagnostics of the whole workspace.
pub open spec fn provides_workspace_diagnostics(registration: RegistrationView) -> bool {
    registration.method == "textDocument/diagnostic"@ && switches_on(
        registration,
        "workspaceDiagnostics"@,
    )
}

/// How far the pull of workspace diagnostics has come.
pub struct PullView {
    pub active: bool,
    /// Whether a result was ever accepted.
    pub accepted_once: bool,
    /// Whether a registration came in during a pull.
    pub refresh_pending: bool,
}

/// What has been reported of workspace diagnostics.
pub struct LifecycleView {
    pub contributed: bool,
    pub reader_exited: bool,
}

/// How much of what a server logs is passed on.
#[derive(Clone, Copy, Debug, PartialEq, Eq, Structural)]
pub enum LogMessageLevel {
    Error,
    Warning,
    Info,
    Log,
    Off,
}

impl LogMessageLevel {
    /// The largest message type that is passed on. Types count from one, for
    /// errors, to the least urgent.
    pub open spec fn threshold(self) -> int {
        match self {
            LogMessageLevel::Off => 0,
            LogMessageLevel::Error => 1,
            LogMessageLevel::Warning => 2,
            LogMessageLevel::Info => 3,
            LogMessageLevel::Log => 4,
        }
    }

    /// Whether a message of a type is passed on.
    pub fn allows(self, message_type: i32) -> (allowed: bool)
        ensures
            allowed == (message_type <= self.threshold()),
    {
        match self {
            LogMessageLevel::Off => message_type <= 0,
            LogMessageLevel::Error => message_type <= 1,
            LogMessageLevel::Warning => message_type <= 2,
            LogMessageLevel::Info => message_type <= 3,
            LogMessageLevel::Log => message_type <= 4,
        }
    }
}

/// Everything that is known about one server's dynamic capabilities.
#[verifier::ext_equal]
pub struct CapabilitiesView {
    /// The registrations by their identifiers.
    pub registrations: Map<Seq<char>, RegistrationView>,
    /// How often registrations changed.
    pub revision: u64,
    /// How often registrations for workspace diagnostics changed.
    pub workspace_revision: u64,
    /// Whether the server offers workspace diagnostics from the start.
    pub static_provider: bool,
    pub pull: PullView,
    pub lifecycle: LifecycleView,
    pub level: LogMessageLevel,
}

/// The number after a revision, starting from zero again after the largest.
pub open spec fn revision_after(revision: u64) -> u64 {
    if revision < u64::MAX {
        (revision + 1) as u64
    } else {
        0
    }
}

/// The registrations with more of them put in, one after the other.
pub open spec fn registered_all(
    known: Map<Seq<char>, RegistrationView>,
    added: Seq<RegistrationView>,
) -> Map<Seq<char>, RegistrationView>
    decreases added.len(),
{
    if added.len() == 0 {
        known
    } else {
        registered_all(known, added.drop_last()).insert(added.last().id, added.last())
    }
}

/// Whether putting these registrations in, one after the other, adds or replaces
/// one for workspace diagnostics.
pub open spec fn registering_concerns_workspace(
    known: Map<Seq<char>, RegistrationView>,
    added: Seq<RegistrationView>,
) -> bool
    decreases added.len(),
{
    added.len() > 0 && (registering_concerns_workspace(known, added.drop_last())
        || provides_workspace_diagnostics(added.last()) || holds_workspace_registration(
        registered_all(known, added.drop_last()),
        added.last().id,
    ))
}

/// Whether a registration for workspace diagnostics is known under an
/// identifier.
pub open spec fn holds_workspace_registration(
    known: Map<Seq<char>, RegistrationView>,
    id: Seq<char>,
) -> bool {
    known.contains_key(id) && provides_workspace_diagnostics(known[id])
}

/// The registrations without those that have one of the identifiers.
pub open spec fn unregistered_all(
    known: Map<Seq<char>, RegistrationView>,
    ids: Seq<Seq<char>>,
) -> Map<Seq<char>, RegistrationView> {
    known.remove_keys(ids.to_set())
}

/// Whether taking these identifiers out takes a registration for workspace
/// diagnostics out.
pub open spec fn unregistering_concerns_workspace(
    known: Map<Seq<char>, RegistrationView>,
    ids: Seq<Seq<char>>,
) -> bool {
    exists|id: Seq<char>| #[trigger]
        ids.contains(id) && holds_workspace_registration(known, id)
}

/// Whether some registration is for a method.
pub open spec fn has_method(
    known: Map<Seq<char>, RegistrationView>,
    method: Seq<char>,
) -> bool {
    exists|id: Seq<char>| #[trigger] known.contains_key(id) && known[id].method == method
}

/// Whether some registration for a method switches a flag on.
pub open spec fn has_flag(
    known: Map<Seq<char>, RegistrationView>,
    method: Seq<char>,
    flag: Seq<char>,
) -> bool {
    exists|id: Seq<char>| #[trigger]
        known.contains_key(id) && known[id].method == method && switches_on(known[id], flag)
}

/// The registrations with the given identifiers that are for a method, in the
/// order of the identifiers.
pub open spec fn found_by_id(
    known: Map<Seq<char>, RegistrationView>,
    ids: Seq<Seq<char>>,
    method: Seq<char>,
) -> Seq<RegistrationView> {
    ids.filter(
        |id: Seq<char>| known.contains_key(id) && known[id].method == method,
    ).map_values(|id: Seq<char>| known[id])
}

/// What the end of a pull leaves, and whether it asks for another one.
pub open spec fn pull_completed(pull: PullView) -> (PullView, bool) {
    (
        PullView { active: false, accepted_once: true, refresh_pending: false },
        pull.refresh_pending,
    )
}

/// What a pull that was called off leaves, and whether it asks for another one.
///
/// A pull that started the server itself, before any result was accepted, settles
/// the registrations that it saw.
pub open spec fn pull_aborted(pull: PullView, started_by_pull: bool) -> (PullView, bool) {
    if !pull.active {
        (pull, false)
    } else {
        (
            PullView { active: false, refresh_pending: false, ..pull },
            pull.refresh_pending && (pull.accepted_once || !started_by_pull),
        )
    }
}

/// What a registration during or outside a pull leaves, and whether it asks for
/// a pull at once.
pub open spec fn refresh_asked(pull: PullView) -> (PullView, bool) {
    if pull.active {
        (PullView { refresh_pending: true, ..pull }, false)
    } else {
        (pull, true)
    }
}

struct WorkspaceDiagnosticPull {
    active: bool,
    accepted_once: bool,
    registration_refresh_pending: bool,
}

impl View for WorkspaceDiagnosticPull {
    type V = PullView;

    closed spec fn view(&self) -> PullView {
        PullView {
            active: self.active,
            accepted_once: self.accepted_once,
            refresh_pending: self.registration_refresh_pending,
        }
    }
}

/// What has been reported of workspace diagnostics, for whoever has exclusive
/// access to it.
pub struct WorkspaceDiagnosticLifecycleGuard {
    contributed: bool,
    exited: bool,
}

impl View for WorkspaceDiagnosticLifecycleGuard {
    type V = LifecycleView;

    closed spec fn view(&self) -> LifecycleView {
        LifecycleView { contributed: self.contributed, reader_exited: self.exited }
    }
}

impl WorkspaceDiagnosticLifecycleGuard {
    /// Whether the connection's reader has ended.
    pub fn reader_exited(&self) -> (exited: bool)
        ensures
            exited == self@.reader_exited,
    {
        self.exited
    }

    /// Says whether the connection contributed to an accepted result.
    pub fn set_contributed(&mut self, contributed: bool)
        ensures
            final(self)@ == (LifecycleView { contributed, ..old(self)@ }),
    {
        self.contributed = contributed;
    }
}

/// The dynamic capabilities of one downstream server.
pub struct DynamicCapabilityRegistry {
    registrations: Table<String, Registration>,
    log_message_level: LogMessageLevel,
    revision: u64,
    workspace_diagnostic_revision: u64,
    static_workspace_diagnostic_provider: bool,
    workspace_diagnostic_pull: WorkspaceDiagnosticPull,
    workspace_diagnostic_lifecycle: WorkspaceDiagnosticLifecycleGuard,
}

impl View for DynamicCapabilityRegistry {
    type V = CapabilitiesView;

    closed spec fn view(&self) -> CapabilitiesView {
        CapabilitiesView {
            registrations: Map::new(
                |id: Seq<char>| self.registrations@.contains_key(id),
                |id: Seq<char>| self.registrations@[id]@,
            ),
            revision: self.revision,
            workspace_revision: self.workspace_diagnostic_revision,
            static_provider: self.static_workspace_diagnostic_provider,
            pull: self.workspace_diagnostic_pull@,
            lifecycle: self.workspace_diagnostic_lifecycle@,
            level: self.log_message_level,
        }
    }
}

impl DynamicCapabilityRegistry {
    /// Every registration is kept under its own identifier.
    pub closed spec fn wf(self) -> bool {
        &&& self.registrations.wf()
        &&& forall|id: Seq<char>| #[trigger]
            self.registrations@.contains_key(id) ==> self.registrations@[id].id@ == id
    }

    /// The identifiers of the registrations in the order in which they are walked.
    pub closed spec fn ids(self) -> Seq<Seq<char>> {
        self.registrations.keys()
    }

    /// The walk comes to every registration once.
    pub proof fn lemma_ids(self)
        requires
            self.wf(),
        ensures
            self.ids().no_duplicates(),
            forall|id: Seq<char>|
                self@.registrations.contains_key(id) <==> #[trigger] self.ids().contains(id),
            forall|id: Seq<char>| #[trigger]
                self@.registrations.contains_key(id) ==> self@.registrations[id].id == id,
    {
        self.registrations.lemma_keys();
    }

    /// A registry of a server that registered nothing.
    pub fn new() -> (registry: Self)
        ensures
            registry.wf(),
            registry@ == (CapabilitiesView {
                registrations: Map::empty(),
                revision: 0,
                workspace_revision: 0,
                static_provider: false,
                pull: PullView { active: false, accepted_once: false, refresh_pending: false },
                lifecycle: LifecycleView { contributed: false, reader_exited: false },
                level: LogMessageLevel::Info,
            }),
    {
        let registry = DynamicCapabilityRegistry {
            registrations: Table::new(),
            log_message_level: LogMessageLevel::Info,
            revision: 0,
            workspace_diagnostic_revision: 0,
            static_workspace_diagnostic_provider: false,
            workspace_diagnostic_pull: WorkspaceDiagnosticPull {
                active: false,
                accepted_once: false,
                registration_refresh_pending: false,
            },
            workspace_diagnostic_lifecycle: WorkspaceDiagnosticLifecycleGuard {
                contributed: false,
                exited: false,
            },
        };
        assert(registry@.registrations =~= Map::<Seq<char>, RegistrationView>::empty());
        registry
    }

    /// Whether a registration's options switch a flag on.
    fn registration_switches_on(registration: &Registration, flag: &str) -> (on: bool)
        ensures
            on == switches_on(registration@, flag@),
    {
        match &registration.register_options {
            Some(options) => match json_flag(options, flag) {
                Some(on) => on,
                None => false,
            },
            None => false,
        }
    }

    /// Whether a registration provides diagnostics of the whole workspace.
    fn registration_participates_in_workspace_diagnostics(registration: &Registration) -> (provides:
        bool)
        ensures
            provides == provides_workspace_diagnostics(registration@),
    {
        same_text(registration.method.as_str(), "textDocument/diagnostic")
            && Self::registration_switches_on(registration, "workspaceDiagnostics")
    }

    /// Counts a change of the registrations.
    fn note_change(&mut self, concerns_workspace: bool)
        requires
            old(self).wf(),
        ensures
            final(self).wf(),
            final(self).ids() == old(self).ids(),
            final(self)@ == (CapabilitiesView {
                revision: revision_after(old(self)@.revision),
                workspace_revision: if concerns_workspace {
                    revision_after(old(self)@.workspace_revision)
                } else {
                    old(self)@.workspace_revision
                },
                ..old(self)@
            }),
    {
        self.revision = self.revision.wrapping_add(1);
        if concerns_workspace {
            self.workspace_diagnostic_revision =
            self.workspace_diagnostic_revision.wrapping_add(1);
        }
    }

    /// Puts registrations in, one after the other. Says whether one for
    /// workspace diagnostics came in or was replaced.
    pub fn register(&mut self, registrations: Vec<Registration>) -> (workspace_changed: bool)
        requires
            old(self).wf(),
        ensures
            final(self).wf(),
            workspace_changed == registering_concerns_workspace(
                old(self)@.registrations,
                registration_views(registrations@),
            ),
            final(self)@ == (CapabilitiesView {
                registrations: registered_all(
                    old(self)@.registrations,
                    registration_views(registrations@),
                ),
                revision: revision_after(old(self)@.revision),
                workspace_revision: if workspace_changed {
                    revision_after(old(self)@.workspace_revision)
                } else {
                    old(self)@.workspace_revision
                },
                ..old(self)@
            }),
    {
        let ghost before = self@;
        let ghost added = registration_views(registrations@);
        let mut workspace_changed = false;
        let mut i: usize = 0;
        assert(added.take(0) =~= Seq::<RegistrationView>::empty());
        while i < registrations.len()
            invariant
                self.wf(),
                i <= registrations@.len(),
                added == registration_views(registrations@),
                self@ == (CapabilitiesView {
                    registrations: registered_all(before.registrations, added.take(i as int)),
                    ..before
                }),
                workspace_changed == registering_concerns_workspace(
                    before.registrations,
                    added.take(i as int),
                ),
            decreases registrations@.len() - i,
        {
            let ghost now = self@.registrations;
            proof {
                assert(added.take(i as int + 1).drop_last() =~= added.take(i as int));
                assert(added.take(i as int + 1).last() == registrations@[i as int]@);
            }
            let registration = registrations[i].clone();
            let ghost said = registration@;
            let provides = Self::registration_participates_in_workspace_diagnostics(&registration);
            let replaced = self.registrations.insert(registration.id.clone(), registration);
            let replaced_provides = match &replaced {
                Some(replaced) => Self::registration_participates_in_workspace_diagnostics(
                    replaced,
                ),
                None => false,
            };
            workspace_changed = workspace_changed || provides || replaced_provides;
            i += 1;
            assert(self@.registrations =~= now.insert(said.id, said));
        }
        assert(added.take(added.len() as int) =~= added);
        self.note_change(workspace_changed);
        workspace_changed
    }

    /// Takes registrations out by their identifiers.
    pub fn unregister(&mut self, unregistrations: Vec<Unregistration>)
        requires
            old(self).wf(),
        ensures
            final(self).wf(),
            ({
                let ids = unregistrations@.map_values(|gone: Unregistration| gone.id@);
                final(self)@ == (CapabilitiesView {
                    registrations: unregistered_all(old(self)@.registrations, ids),
                    revision: revision_after(old(self)@.revision),
                    workspace_revision: if unregistering_concerns_workspace(
                        old(self)@.registrations,
                        ids,
                    ) {
                        revision_after(old(self)@.workspace_revision)
                    } else {
                        old(self)@.workspace_revision
                    },
                    ..old(self)@
                })
            }),
    {
        let ghost before = self@;
        let ghost ids = unregistrations@.map_values(|gone: Unregistration| gone.id@);
        let mut workspace_changed = false;
        let mut i: usize = 0;
        proof {
            assert(ids.take(0) =~= Seq::<Seq<char>>::empty());
            assert(unregistered_all(before.registrations, ids.take(0)) =~= before.registrations);
        }
        while i < unregistrations.len()
            invariant
                self.wf(),
                i <= unregistrations@.len(),
                ids == unregistrations@.map_values(|gone: Unregistration| gone.id@),
                self@ == (CapabilitiesView {
                    registrations: unregistered_all(before.registrations, ids.take(i as int)),
                    ..before
                }),
                workspace_changed == unregistering_concerns_workspace(
                    before.registrations,
                    ids.take(i as int),
                ),
            decreases unregistrations@.len() - i,
        {
            let ghost now = self@.registrations;
            let ghost id = ids[i as int];
            let removed = self.registrations.remove(&unregistrations[i].id);
            let provides = match &removed {
                Some(removed) => Self::registration_participates_in_workspace_diagnostics(removed),
                None => false,
            };
            proof {
                lemma_take_contains(ids, i as int);
                let seen = ids.take(i as int);
                let next = ids.take(i as int + 1);
                assert(self@.registrations =~= now.remove(id));
                assert(unregistered_all(before.registrations, next) =~= now.remove(id));
                assert(provides == (now.contains_key(id) && provides_workspace_diagnostics(
                    now[id],
                )));
                assert(unregistering_concerns_workspace(before.registrations, next) == (
                unregistering_concerns_workspace(before.registrations, seen)
                    || holds_workspace_registration(before.registrations, id))) by {
                    if unregistering_concerns_workspace(before.registrations, seen) {
                        let other = choose|other: Seq<char>| #[trigger]
                            seen.contains(other) && holds_workspace_registration(
                                before.registrations,
                                other,
                            );
                        assert(next.contains(other));
                    }
                    if unregistering_concerns_workspace(before.registrations, next) {
                        let other = choose|other: Seq<char>| #[trigger]
                            next.contains(other) && holds_workspace_registration(
                                before.registrations,
                                other,
                            );
                        assert(seen.contains(other) || other == id);
                    }
                    assert(next.contains(id));
                }
                if seen.contains(id) {
                    assert(holds_workspace_registration(before.registrations, id)
                        ==> unregistering_concerns_workspace(before.registrations, seen));
                }
            }
            workspace_changed = workspace_changed || provides;
            i += 1;
        }
        assert(ids.take(ids.len() as int) =~= ids);
        self.note_change(workspace_changed);
    }

    /// How often the registrations changed.
    pub fn revision(&self) -> (revision: u64)
        ensures
            revision == self@.revision,
    {
        self.revision
    }

    /// How often registrations for workspace diagnostics changed.
    pub fn workspace_diagnostic_revision(&self) -> (revision: u64)
        ensures
            revision == self@.workspace_revision,
    {
        self.workspace_diagnostic_revision
    }

    /// Says whether the server offers workspace diagnostics from the start.
    pub fn set_static_workspace_diagnostic_provider(&mut self, supported: bool)
        requires
            old(self).wf(),
        ensures
            final(self).wf(),
            final(self)@ == (CapabilitiesView { static_provider: supported, ..old(self)@ }),
    {
        self.static_workspace_diagnostic_provider = supported;
    }

    /// Whether a method is registered, and whether a registration for it switches
    /// a flag on.
    pub fn registration_snapshot(&self, method: &str, flag: &str) -> (state: (bool, bool))
        requires
            self.wf(),
        ensures
            state.0 == has_method(self@.registrations, method@),
            state.1 == has_flag(self@.registrations, method@, flag@),
    {
        let ghost known = self@.registrations;
        let ghost ids = self.registrations.keys();
        let mut registered = false;
        let mut flag_enabled = false;
        let mut i: usize = 0;
        while i < self.registrations.len()
            invariant
                self.wf(),
                known == self@.registrations,
                ids == self.registrations.keys(),
                i <= ids.len(),
                registered == exists|j: int|
                    0 <= j < i && known[#[trigger] ids[j]].method == method@,
                flag_enabled == exists|j: int|
                    0 <= j < i && known[#[trigger] ids[j]].method == method@ && switches_on(
                        known[ids[j]],
                        flag@,
                    ),
            decreases ids.len() - i,
        {
            proof {
                self.registrations.lemma_keys();
            }
            let registration = self.registrations.value_at(i);
            assert(registration@ == known[ids[i as int]]);
            if same_text(registration.method.as_str(), method) {
                registered = true;
                flag_enabled = flag_enabled || Self::registration_switches_on(registration, flag);
            }
            i += 1;
        }
        proof {
            self.registrations.lemma_keys();
            assert(has_method(known, method@) == exists|j: int|
                0 <= j < ids.len() && known[#[trigger] ids[j]].method == method@) by {
                if has_method(known, method@) {
                    let id = choose|id: Seq<char>| #[trigger]
                        known.contains_key(id) && known[id].method == method@;
                    assert(ids.contains(id));
                }
                if exists|j: int| 0 <= j < ids.len() && known[#[trigger] ids[j]].method == method@ {
                    let j = choose|j: int|
                        0 <= j < ids.len() && known[#[trigger] ids[j]].method == method@;
                    assert(known.contains_key(ids[j]));
                }
            }
            assert(has_flag(known, method@, flag@) == exists|j: int|
                0 <= j < ids.len() && known[#[trigger] ids[j]].method == method@ && switches_on(
                    known[ids[j]],
                    flag@,
                )) by {
                if has_flag(known, method@, flag@) {
                    let id = choose|id: Seq<char>| #[trigger]
                        known.contains_key(id) && known[id].method == method@ && switches_on(
                            known[id],
                            flag@,
                        );
                    assert(ids.contains(id));
                }
                if exists|j: int|
                    0 <= j < ids.len() && known[#[trigger] ids[j]].method == method@ && switches_on(
                        known[ids[j]],
                        flag@,
                    ) {
                    let j = choose|j: int|
                        0 <= j < ids.len() && known[#[trigger] ids[j]].method == method@
                            && switches_on(known[ids[j]], flag@);
                    assert(known.contains_key(ids[j]));
                }
            }
        }
        (registered, flag_enabled)
    }

    /// Whether a method is registered.
    pub fn has_registration(&self, method: &str) -> (registered: bool)
        requires
            self.wf(),
        ensures
            registered == has_method(self@.registrations, method@),
    {
        self.registration_snapshot(method, "").0
    }

    /// Whether a registration for a method switches a flag on.
    pub fn registration_options_flag(&self, method: &str, flag: &str) -> (on: bool)
        requires
            self.wf(),
        ensures
            on == has_flag(self@.registrations, method@, flag@),
    {
        self.registration_snapshot(method, flag).1
    }

    /// Whether the server offers workspace diagnostics, from the start or by a
    /// registration.
    pub fn has_workspace_diagnostic_provider(&self) -> (provides: bool)
        requires
            self.wf(),
        ensures
            provides == (self@.static_provider || has_flag(
                self@.registrations,
                "textDocument/diagnostic"@,
                "workspaceDiagnostics"@,
            )),
    {
        self.static_workspace_diagnostic_provider || self.registration_options_flag(
            "textDocument/diagnostic",
            "workspaceDiagnostics",
        )
    }

    /// Does something while a method is registered. Gives nothing where it is
    /// not.
    pub fn with_registration<R, F: FnOnce() -> R>(&self, method: &str, f: F) -> (result: Option<R>)
        requires
            self.wf(),
            has_method(self@.registrations, method@) ==> call_requires(f, ()),
        ensures
            match result {
                Some(result) => has_method(self@.registrations, method@) && call_ensures(
                    f,
                    (),
                    result,
                ),
                None => !has_method(self@.registrations, method@),
            },
    {
        if self.has_registration(method) {
            Some(f())
        } else {
            None
        }
    }

    /// Does something with what is registered for a method and a flag.
    pub fn with_registration_snapshot<R, F: FnOnce(bool, bool) -> R>(
        &self,
        method: &str,
        flag: &str,
        f: F,
    ) -> (result: R)
        requires
            self.wf(),
            call_requires(
                f,
                (
                    has_method(self@.registrations, method@),
                    has_flag(self@.registrations, method@, flag@),
                ),
            ),
        ensures
            call_ensures(
                f,
                (
                    has_method(self@.registrations, method@),
                    has_flag(self@.registrations, method@, flag@),
                ),
                result,
            ),
    {
        let (registered, flag_enabled) = self.registration_snapshot(method, flag);
        f(registered, flag_enabled)
    }

    /// The registrations for a method, each once.
    pub fn registrations_for_method(&self, method: &str) -> (list: Vec<Registration>)
        requires
            self.wf(),
        ensures
            registration_views(list@) == self.ids().filter(
                |id: Seq<char>| self@.registrations[id].method == method@,
            ).map_values(|id: Seq<char>| self@.registrations[id]),
    {
        let ghost known = self@.registrations;
        let ghost ids = self.registrations.keys();
        let ghost matching = |id: Seq<char>| known[id].method == method@;
        let ghost entry = |id: Seq<char>| known[id];
        let mut list: Vec<Registration> = Vec::new();
        let mut i: usize = 0;
        proof {
            reveal(Seq::filter);
            assert(ids.take(0) =~= Seq::<Seq<char>>::empty());
            assert(registration_views(list@) =~= ids.take(0).filter(matching).map_values(entry));
        }
        while i < self.registrations.len()
            invariant
                self.wf(),
                known == self@.registrations,
                ids == self.registrations.keys(),
                i <= ids.len(),
                matching == (|id: Seq<char>| known[id].method == method@),
                entry == (|id: Seq<char>| known[id]),
                registration_views(list@) == ids.take(i as int).filter(matching).map_values(entry),
            decreases ids.len() - i,
        {
            proof {
                self.registrations.lemma_keys();
            }
            let ghost id = ids[i as int];
            let ghost seen = ids.take(i as int);
            let registration = self.registrations.value_at(i);
            assert(registration@ == known[id]);
            proof {
                assert(ids.take(i as int + 1) =~= seen.push(id));
                seen.lemma_filter_push(id, matching);
                assert(seen.filter(matching).push(id).map_values(entry) =~= seen.filter(
                    matching,
                ).map_values(entry).push(known[id]));
            }
            if same_text(registration.method.as_str(), method) {
                let copy = registration.clone();
                assert(registration_views(list@.push(copy)) =~= registration_views(list@).push(
                    copy@,
                ));
                list.push(copy);
            }
            i += 1;
        }
        assert(ids.take(ids.len() as int) =~= ids);
        list
    }

    /// The registrations for a method, and how often registrations for workspace
    /// diagnostics changed up to this moment.
    pub fn registrations_for_method_with_revision(&self, method: &str) -> (found: (
        Vec<Registration>,
        u64,
    ))
        requires
            self.wf(),
        ensures
            registration_views(found.0@) == self.ids().filter(
                |id: Seq<char>| self@.registrations[id].method == method@,
            ).map_values(|id: Seq<char>| self@.registrations[id]),
            found.1 == self@.workspace_revision,
    {
        (self.registrations_for_method(method), self.workspace_diagnostic_revision)
    }

    /// The registrations with the given identifiers that are for a method, in
    /// the order of the identifiers.
    pub fn registrations_by_id(&self, ids: &Vec<String>, method: &str) -> (list: Vec<&Registration>)
        requires
            self.wf(),
        ensures
            list@.map_values(|registration: &Registration| registration@) == found_by_id(
                self@.registrations,
                texts(ids@),
                method@,
            ),
    {
        let ghost known = self@.registrations;
        let ghost said = texts(ids@);
        let ghost matching = |id: Seq<char>| known.contains_key(id) && known[id].method == method@;
        let ghost entry = |id: Seq<char>| known[id];
        let ghost seen_as = |registration: &Registration| registration@;
        let mut list: Vec<&Registration> = Vec::new();
        let mut i: usize = 0;
        proof {
            reveal(Seq::filter);
            assert(said.take(0) =~= Seq::<Seq<char>>::empty());
            assert(list@.map_values(seen_as) =~= said.take(0).filter(matching).map_values(entry));
        }
        while i < ids.len()
            invariant
                self.wf(),
                known == self@.registrations,
                said == texts(ids@),
                i <= said.len(),
                matching == (|id: Seq<char>|
                    known.contains_key(id) && known[id].method == method@),
                entry == (|id: Seq<char>| known[id]),
                seen_as == (|registration: &Registration| registration@),
                list@.map_values(seen_as) == said.take(i as int).filter(matching).map_values(entry),
            decreases said.len() - i,
        {
            let ghost id = said[i as int];
            let ghost seen = said.take(i as int);
            proof {
                assert(said.take(i as int + 1) =~= seen.push(id));
                seen.lemma_filter_push(id, matching);
                assert(seen.filter(matching).push(id).map_values(entry) =~= seen.filter(
                    matching,
                ).map_values(entry).push(known[id]));
            }
            match self.registrations.get(&ids[i]) {
                Some(registration) => {
                    assert(registration@ == known[id]);
                    if same_text(registration.method.as_str(), method) {
                        assert(list@.push(registration).map_values(seen_as) =~= list@.map_values(
                            seen_as,
                        ).push(registration@));
                        list.push(registration);
                    }
                },
                None => {},
            }
            i += 1;
        }
        assert(said.take(said.len() as int) =~= said);
        list
    }

    /// Does something with the registrations that have the given identifiers and
    /// are for a method.
    pub fn with_registrations_by_id<R, F: FnOnce(Vec<&Registration>) -> R>(
        &self,
        ids: &Vec<String>,
        method: &str,
        f: F,
    ) -> (result: R)
        requires
            self.wf(),
            forall|list: Vec<&Registration>|
                list@.map_values(|registration: &Registration| registration@) == found_by_id(
                    self@.registrations,
                    texts(ids@),
                    method@,
                ) ==> #[trigger] call_requires(f, (list,)),
        ensures
            exists|list: Vec<&Registration>|
                {
                    &&& #[trigger] call_ensures(f, (list,), result)
                    &&& list@.map_values(|registration: &Registration| registration@)
                        == found_by_id(self@.registrations, texts(ids@), method@)
                },
    {
        let list = self.registrations_by_id(ids, method);
        let ghost handed = list;
        let result = f(list);
        assert(call_ensures(f, (handed,), result));
        result
    }

    /// Exclusive access to what has been reported of workspace diagnostics.
    pub fn workspace_diagnostic_lifecycle_lock(&mut self) -> (guard:
        &mut WorkspaceDiagnosticLifecycleGuard)
        requires
            old(self).wf(),
        ensures
            final(self).wf(),
            guard@ == old(self)@.lifecycle,
            final(self)@ == (CapabilitiesView { lifecycle: final(guard)@, ..old(self)@ }),
    {
        &mut self.workspace_diagnostic_lifecycle
    }

    /// Notes that the connection contributed to an accepted result, and says
    /// whether another pull is due. Nothing is accepted after the reader ended.
    pub fn try_mark_workspace_diagnostic_contributed(&mut self) -> (refresh: Option<bool>)
        requires
            old(self).wf(),
        ensures
            final(self).wf(),
            if old(self)@.lifecycle.reader_exited {
                refresh is None && final(self)@ == old(self)@
            } else {
                refresh == Some(pull_completed(old(self)@.pull).1) && final(self)@ == (
                CapabilitiesView {
                    lifecycle: LifecycleView { contributed: true, ..old(self)@.lifecycle },
                    pull: pull_completed(old(self)@.pull).0,
                    ..old(self)@
                })
            },
    {
        if self.workspace_diagnostic_lifecycle.reader_exited() {
            return None;
        }
        self.workspace_diagnostic_lifecycle.set_contributed(true);
        Some(self.mark_workspace_diagnostic_pull_completed())
    }

    /// Notes that the connection's reader ended. Says whether the connection
    /// contributed to an accepted result before.
    pub fn mark_workspace_diagnostic_reader_exited(&mut self) -> (contributed: bool)
        requires
            old(self).wf(),
        ensures
            final(self).wf(),
            contributed == old(self)@.lifecycle.contributed,
            final(self)@ == (CapabilitiesView {
                lifecycle: LifecycleView { reader_exited: true, ..old(self)@.lifecycle },
                ..old(self)@
            }),
    {
        self.workspace_diagnostic_lifecycle.exited = true;
        self.workspace_diagnostic_lifecycle.contributed
    }

    /// Whether the connection's reader has ended.
    pub fn has_workspace_diagnostic_reader_exited(&self) -> (exited: bool)
        ensures
            exited == self@.lifecycle.reader_exited,
    {
        self.workspace_diagnostic_lifecycle.reader_exited()
    }

    /// Whether the connection contributed to an accepted result.
    pub fn has_workspace_diagnostic_contributed(&self) -> (contributed: bool)
        ensures
            contributed == self@.lifecycle.contributed,
    {
        self.workspace_diagnostic_lifecycle.contributed
    }

    /// Notes that a pull was accepted. Says whether another one is due.
    pub fn mark_workspace_diagnostic_pull_completed(&mut self) -> (refresh: bool)
        requires
            old(self).wf(),
        ensures
            final(self).wf(),
            refresh == pull_completed(old(self)@.pull).1,
            final(self)@ == (CapabilitiesView {
                pull: pull_completed(old(self)@.pull).0,
                ..old(self)@
            }),
    {
        let refresh = self.workspace_diagnostic_pull.registration_refresh_pending;
        self.workspace_diagnostic_pull.active = false;
        self.workspace_diagnostic_pull.accepted_once = true;
        self.workspace_diagnostic_pull.registration_refresh_pending = false;
        refresh
    }

    /// Notes that a pull is under way.
    pub fn mark_workspace_diagnostic_pull_active(&mut self)
        requires
            old(self).wf(),
        ensures
            final(self).wf(),
            final(self)@ == (CapabilitiesView {
                pull: PullView { active: true, ..old(self)@.pull },
                ..old(self)@
            }),
    {
        self.workspace_diagnostic_pull.active = true;
    }

    /// Whether a pull is under way.
    pub fn workspace_diagnostic_pull_active(&self) -> (active: bool)
        ensures
            active == self@.pull.active,
    {
        self.workspace_diagnostic_pull.active
    }

    /// Notes that a pull was called off. Says whether another one is due.
    pub fn mark_workspace_diagnostic_pull_aborted(&mut self, started_by_pull: bool) -> (refresh:
        bool)
        requires
            old(self).wf(),
        ensures
            final(self).wf(),
            refresh == pull_aborted(old(self)@.pull, started_by_pull).1,
            final(self)@ == (CapabilitiesView {
                pull: pull_aborted(old(self)@.pull, started_by_pull).0,
                ..old(self)@
            }),
    {
        if self.workspace_diagnostic_pull.active {
            let pending = self.workspace_diagnostic_pull.registration_refresh_pending;
            self.workspace_diagnostic_pull.active = false;
            self.workspace_diagnostic_pull.registration_refresh_pending = false;
            if self.workspace_diagnostic_pull.accepted_once || !started_by_pull {
                return pending;
            }
        }
        false
    }

    /// Takes the note of a registration during a pull, where there is one.
    pub fn take_workspace_diagnostic_registration_refresh(&mut self) -> (pending: bool)
        requires
            old(self).wf(),
        ensures
            final(self).wf(),
            pending == old(self)@.pull.refresh_pending,
            final(self)@ == (CapabilitiesView {
                pull: PullView { refresh_pending: false, ..old(self)@.pull },
                ..old(self)@
            }),
    {
        let pending = self.workspace_diagnostic_pull.registration_refresh_pending;
        self.workspace_diagnostic_pull.registration_refresh_pending = false;
        pending
    }

    /// Asks for a pull because of a registration. During a pull the wish is
    /// noted for later; otherwise it is due at once.
    pub fn request_or_defer_workspace_diagnostic_registration_refresh(&mut self) -> (due: bool)
        requires
            old(self).wf(),
        ensures
            final(self).wf(),
            due == refresh_asked(old(self)@.pull).1,
            final(self)@ == (CapabilitiesView {
                pull: refresh_asked(old(self)@.pull).0,
                ..old(self)@
            }),
    {
        if self.workspace_diagnostic_pull.active {
            self.workspace_diagnostic_pull.registration_refresh_pending = true;
            false
        } else {
            true
        }
    }

    /// Sets how much of what the server logs is passed on.
    pub fn store_log_message_level(&mut self, level: LogMessageLevel)
        requires
            old(self).wf(),
        ensures
            final(self).wf(),
            final(self)@ == (CapabilitiesView { level, ..old(self)@ }),
    {
        self.log_message_level = level;
    }

    /// Whether a logged message of a type is passed on.
    pub fn allows_log_message(&self, message_type: i32) -> (allowed: bool)
        ensures
            allowed == (message_type <= self@.level.threshold()),
    {
        self.log_message_level.allows(message_type)
    }
}

/// A registration during a pull is noted, and the accepted end of the pull asks
/// for another one. Outside a pull it is due at once and leaves nothing behind.
pub proof fn a_registration_is_never_lost(pull: PullView)
    ensures
        pull.active ==> !refresh_asked(pull).1 && pull_completed(refresh_asked(pull).0).1,
        !pull.active ==> refresh_asked(pull) == (pull, true),
{
}

/// A pull that was called off asks for another one exactly when a registration
/// came in during it and either a result was accepted before or the pull did not
/// start the server itself. In any case it leaves nothing pending.
pub proof fn an_aborted_pull_settles_what_it_saw(pull: PullView, started_by_pull: bool)
    requires
        pull.active,
    ensures
        ({
            let (after, refresh) = pull_aborted(refresh_asked(pull).0, started_by_pull);
            &&& refresh == (pull.accepted_once || !started_by_pull)
            &&& !after.refresh_pending && !after.active
            &&& after.accepted_once == pull.accepted_once
        }),
{
}

/// A pull that has ended cannot be called off afterwards.
pub proof fn an_accepted_pull_cannot_be_aborted(pull: PullView, started_by_pull: bool)
    ensures
        pull_aborted(pull_completed(pull).0, started_by_pull) == (pull_completed(pull).0, false),
{
}

/// Replacing or removing the last registration for workspace diagnostics is a
/// change that concerns them.
pub proof fn losing_workspace_diagnostics_is_noticed(
    known: Map<Seq<char>, RegistrationView>,
    replacement: RegistrationView,
)
    requires
        holds_workspace_registration(known, replacement.id),
    ensures
        registering_concerns_workspace(known, seq![replacement]),
        unregistering_concerns_workspace(known, seq![replacement.id]),
{
    assert(seq![replacement].drop_last() =~= Seq::<RegistrationView>::empty());
    assert(registered_all(known, seq![replacement].drop_last()) == known);
    assert(seq![replacement].last() == replacement);
    assert(seq![replacement.id][0] == replacement.id);
    assert(seq![replacement.id].contains(replacement.id));
}

/// A registration for another method, or without workspace diagnostics, that
/// replaces none for them concerns them not.
pub proof fn unrelated_registrations_do_not_concern_the_workspace(
    known: Map<Seq<char>, RegistrationView>,
    added: RegistrationView,
)
    requires
        !provides_workspace_diagnostics(added),
        !holds_workspace_registration(known, added.id),
    ensures
        !registering_concerns_workspace(known, seq![added]),
{
    assert(seq![added].drop_last() =~= Seq::<RegistrationView>::empty());
    assert(registered_all(known, seq![added].drop_last()) == known);
    assert(seq![added].last() == added);
    reveal_with_fuel(registering_concerns_workspace, 2);
}

/// Registrations with different identifiers live side by side, also for one
/// method; taking one out leaves the other.
pub proof fn registrations_are_told_apart_by_id(
    known: Map<Seq<char>, RegistrationView>,
    one: RegistrationView,
    two: RegistrationView,
)
    requires
        one.id != two.id,
    ensures
        ({
            let both = registered_all(known, seq![one, two]);
            &&& both.contains_key(one.id) && both[one.id] == one
            &&& both.contains_key(two.id) && both[two.id] == two
            &&& unregistered_all(both, seq![one.id]).contains_key(two.id)
            &&& !unregistered_all(both, seq![one.id]).contains_key(one.id)
        }),
{
    let list = seq![one, two];
    assert(list.drop_last() =~= seq![one]);
    assert(seq![one].drop_last() =~= Seq::<RegistrationView>::empty());
    assert(list.last() == two && seq![one].last() == one);
    reveal_with_fuel(registered_all, 3);
    let both = registered_all(known, list);
    assert(seq![one.id][0] == one.id);
    assert(seq![one.id].to_set().contains(one.id));
    assert(!seq![one.id].to_set().contains(two.id));
}

/// Of several registrations under one identifier the latest counts, and what is known
/// under an identifier that none of them has stays.
pub proof fn the_latest_registration_counts(
    known: Map<Seq<char>, RegistrationView>,
    added: Seq<RegistrationView>,
    id: Seq<char>,
)
    ensures
        ({
            let after = registered_all(known, added);
            &&& (forall|i: int| 0 <= i < added.len() ==> (#[trigger] added[i]).id != id) ==> (
            after.contains_key(id) == known.contains_key(id) && after[id] == known[id])
            &&& forall|i: int|
                0 <= i < added.len() && (#[trigger] added[i]).id == id && (forall|j: int|
                    i < j < added.len() ==> (#[trigger] added[j]).id != id) ==> after.contains_key(
                    id,
                ) && after[id] == added[i]
        }),
    decreases added.len(),
{
    if added.len() > 0 {
        let shorter = added.drop_last();
        let last = added.last();
        the_latest_registration_counts(known, shorter, id);
        let after = registered_all(known, added);
        let before = registered_all(known, shorter);
        assert(added[added.len() - 1] == last);
        if forall|i: int| 0 <= i < added.len() ==> (#[trigger] added[i]).id != id {
            assert forall|i: int| 0 <= i < shorter.len() implies (#[trigger] shorter[i]).id
                != id by {
                assert(shorter[i] == added[i]);
            }
        }
        assert forall|i: int|
            0 <= i < added.len() && (#[trigger] added[i]).id == id && (forall|j: int|
                i < j < added.len() ==> (#[trigger] added[j]).id != id) implies after.contains_key(
            id,
        ) && after[id] == added[i] by {
            if i < shorter.len() {
                assert(added[added.len() - 1].id != id);
                assert(shorter[i] == added[i]);
                assert forall|j: int| i < j < shorter.len() implies (#[trigger] shorter[j]).id
                    != id by {
                    assert(shorter[j] == added[j]);
                }
                assert(before.contains_key(id) && before[id] == shorter[i]);
            }
        }
    }
}

/// Taking identifiers out takes exactly their registrations out.
pub proof fn unregistering_takes_its_own(
    known: Map<Seq<char>, RegistrationView>,
    ids: Seq<Seq<char>>,
    id: Seq<char>,
)
    ensures
        unregistered_all(known, ids).contains_key(id) <==> known.contains_key(id) && !(exists|
            i: int,
        |
            0 <= i < ids.len() && #[trigger] ids[i] == id),
        unregistered_all(known, ids).contains_key(id) ==> unregistered_all(known, ids)[id]
            == known[id],
{
    if ids.to_set().contains(id) {
        assert(ids.contains(id));
        let i = choose|i: int| 0 <= i < ids.len() && ids[i] == id;
        assert(ids[i] == id);
    }
    if exists|i: int| 0 <= i < ids.len() && #[trigger] ids[i] == id {
        let i = choose|i: int| 0 <= i < ids.len() && #[trigger] ids[i] == id;
        assert(ids.contains(ids[i]));
    }
}

/// A method is registered exactly where some registration is for it, and a flag of
/// it is on exactly where the options of one of these say so.
pub proof fn methods_are_registered_by_their_own(
    known: Map<Seq<char>, RegistrationView>,
    registration: RegistrationView,
    method: Seq<char>,
    flag: Seq<char>,
)
    ensures
        ({
            let after = known.insert(registration.id, registration);
            let on = registration.options is Some && json_flags(
                registration.options->0,
            ).contains_key(flag) && json_flags(registration.options->0)[flag];
            &&& has_method(after, registration.method)
            &&& on ==> has_flag(after, registration.method, flag)
            &&& !known.contains_key(registration.id) && method != registration.method
                ==> has_method(after, method) == has_method(known, method) && has_flag(
                after,
                method,
                flag,
            ) == has_flag(known, method, flag)
            &&& !known.contains_key(registration.id) && !on ==> has_flag(
                after,
                registration.method,
                flag,
            ) == has_flag(known, registration.method, flag)
            &&& has_flag(known, method, flag) ==> has_method(known, method)
            &&& !has_method(Map::empty(), method)
            &&& provides_workspace_diagnostics(registration) <==> registration.method
                == "textDocument/diagnostic"@ && registration.options is Some && json_flags(
                registration.options->0,
            ).contains_key("workspaceDiagnostics"@) && json_flags(
                registration.options->0,
            )["workspaceDiagnostics"@]
        }),
{
    let after = known.insert(registration.id, registration);
    assert(after.contains_key(registration.id));
    if !known.contains_key(registration.id) {
        if has_method(known, method) {
            let id = choose|id: Seq<char>| #[trigger]
                known.contains_key(id) && known[id].method == method;
            assert(after.contains_key(id));
        }
        if has_method(after, method) {
            let id = choose|id: Seq<char>| #[trigger]
                after.contains_key(id) && after[id].method == method;
            assert(id == registration.id || known.contains_key(id));
        }
        if has_flag(known, method, flag) {
            let id = choose|id: Seq<char>| #[trigger]
                known.contains_key(id) && known[id].method == method && switches_on(
                    known[id],
                    flag,
                );
            assert(after.contains_key(id));
        }
        if has_flag(after, method, flag) {
            let id = choose|id: Seq<char>| #[trigger]
                after.contains_key(id) && after[id].method == method && switches_on(
                    after[id],
                    flag,
                );
            assert(id == registration.id || known.contains_key(id));
        }
        if has_flag(known, registration.method, flag) {
            let id = choose|id: Seq<char>| #[trigger]
                known.contains_key(id) && known[id].method == registration.method && switches_on(
                    known[id],
                    flag,
                );
            assert(after.contains_key(id));
        }
        if has_flag(after, registration.method, flag) {
            let id = choose|id: Seq<char>| #[trigger]
                after.contains_key(id) && after[id].method == registration.method && switches_on(
                    after[id],
                    flag,
                );
            assert(id == registration.id || known.contains_key(id));
        }
    }
    if has_flag(known, method, flag) {
        let id = choose|id: Seq<char>| #[trigger]
            known.contains_key(id) && known[id].method == method && switches_on(known[id], flag);
        assert(known.contains_key(id));
    }
}

/// Registering concerns workspace diagnostics exactly where one of the new
/// registrations provides them, or one that is known under the same identifier did.
pub proof fn workspace_registrations_are_noticed(
    known: Map<Seq<char>, RegistrationView>,
    added: Seq<RegistrationView>,
)
    ensures
        registering_concerns_workspace(known, added) <==> exists|i: int|
            0 <= i < added.len() && (provides_workspace_diagnostics(#[trigger] added[i]) || (
            known.contains_key(added[i].id) && provides_workspace_diagnostics(
                known[added[i].id],
            ))),
{
    if registering_concerns_workspace(known, added) {
        lemma_noticed_for_a_reason(known, added);
        let i = choose|i: int| 0 <= i < added.len() && touches_workspace(known, #[trigger] added[i]);
        assert(provides_workspace_diagnostics(added[i]) || known.contains_key(added[i].id));
    }
    if exists|i: int|
        0 <= i < added.len() && (provides_workspace_diagnostics(#[trigger] added[i]) || (
        known.contains_key(added[i].id) && provides_workspace_diagnostics(known[added[i].id]))) {
        let i = choose|i: int|
            0 <= i < added.len() && (provides_workspace_diagnostics(#[trigger] added[i]) || (
            known.contains_key(added[i].id) && provides_workspace_diagnostics(
                known[added[i].id],
            )));
        lemma_touching_is_noticed(known, added, i);
    }
}

spec fn touches_workspace(
    known: Map<Seq<char>, RegistrationView>,
    registration: RegistrationView,
) -> bool {
    provides_workspace_diagnostics(registration) || (known.contains_key(registration.id)
        && provides_workspace_diagnostics(known[registration.id]))
}

proof fn lemma_touching_is_noticed(
    known: Map<Seq<char>, RegistrationView>,
    added: Seq<RegistrationView>,
    i: int,
)
    requires
        0 <= i < added.len(),
        touches_workspace(known, added[i]),
    ensures
        registering_concerns_workspace(known, added),
    decreases added.len(),
{
    let shorter = added.drop_last();
    let last = added.last();
    if i < shorter.len() {
        assert(shorter[i] == added[i]);
        lemma_touching_is_noticed(known, shorter, i);
    } else if !provides_workspace_diagnostics(last) {
        if exists|k: int| 0 <= k < shorter.len() && (#[trigger] shorter[k]).id == last.id {
            let k = choose|k: int|
                0 <= k < shorter.len() && (#[trigger] shorter[k]).id == last.id;
            lemma_touching_is_noticed(known, shorter, k);
        } else {
            the_latest_registration_counts(known, shorter, last.id);
        }
    }
}

proof fn lemma_noticed_for_a_reason(
    known: Map<Seq<char>, RegistrationView>,
    added: Seq<RegistrationView>,
)
    requires
        registering_concerns_workspace(known, added),
    ensures
        exists|i: int| 0 <= i < added.len() && touches_workspace(known, #[trigger] added[i]),
    decreases added.len(),
{
    let shorter = added.drop_last();
    let last = added.last();
    assert(added[added.len() - 1] == last);
    if registering_concerns_workspace(known, shorter) {
        lemma_noticed_for_a_reason(known, shorter);
        let i = choose|i: int|
            0 <= i < shorter.len() && touches_workspace(known, #[trigger] shorter[i]);
        assert(added[i] == shorter[i]);
    } else if !touches_workspace(known, last) {
        lemma_from_the_list(known, shorter, last.id);
        let before = registered_all(known, shorter);
        let k = choose|k: int|
            0 <= k < shorter.len() && (#[trigger] shorter[k]).id == last.id && before[last.id]
                == shorter[k];
        assert(added[k] == shorter[k]);
    }
}

proof fn lemma_from_the_list(
    known: Map<Seq<char>, RegistrationView>,
    added: Seq<RegistrationView>,
    id: Seq<char>,
)
    ensures
        ({
            let after = registered_all(known, added);
            after.contains_key(id) && !(known.contains_key(id) && after[id] == known[id])
                ==> exists|k: int|
                0 <= k < added.len() && (#[trigger] added[k]).id == id && after[id] == added[k]
        }),
    decreases added.len(),
{
    if added.len() > 0 {
        let shorter = added.drop_last();
        let last = added.last();
        lemma_from_the_list(known, shorter, id);
        let after = registered_all(known, added);
        let before = registered_all(known, shorter);
        assert(added[added.len() - 1] == last);
        if last.id != id && after.contains_key(id) && !(known.contains_key(id) && after[id]
            == known[id]) {
            let k = choose|k: int|
                0 <= k < shorter.len() && (#[trigger] shorter[k]).id == id && before[id]
                    == shorter[k];
            assert(added[k] == shorter[k]);
        }
    }
}

/// What is found by identifiers is exactly what is known under them for the method.
pub proof fn found_registrations_match(
    known: Map<Seq<char>, RegistrationView>,
    ids: Seq<Seq<char>>,
    method: Seq<char>,
    i: int,
)
    ensures
        0 <= i < ids.len() && known.contains_key(ids[i]) && known[ids[i]].method == method
            ==> found_by_id(known, ids, method).contains(known[ids[i]]),
        0 <= i < found_by_id(known, ids, method).len() ==> found_by_id(known, ids, method)[i].method
            == method && exists|j: int|
            0 <= j < ids.len() && known.contains_key(#[trigger] ids[j]) && known[ids[j]]
                == found_by_id(known, ids, method)[i],
{
    let matching = |id: Seq<char>| known.contains_key(id) && known[id].method == method;
    let kept = ids.filter(matching);
    let found = found_by_id(known, ids, method);
    crate::seqs::lemma_filter_members(ids, matching);
    if 0 <= i < ids.len() && known.contains_key(ids[i]) && known[ids[i]].method == method {
        assert(ids.contains(ids[i]));
        assert(kept.contains(ids[i]));
        let k = choose|k: int| 0 <= k < kept.len() && kept[k] == ids[i];
        assert(found[k] == known[ids[i]]);
    }
    if 0 <= i < found.len() {
        assert(kept.contains(kept[i]));
        assert(ids.contains(kept[i]));
        let j = choose|j: int| 0 <= j < ids.len() && ids[j] == kept[i];
        assert(known.contains_key(ids[j]) && known[ids[j]] == found[i]);
    }
}

/// Each level lets one more type of message through than the one before it, from
/// nothing over errors to everything. Types count from one.
pub proof fn levels_open_step_by_step()
    ensures
        LogMessageLevel::Off.threshold() == 0,
        LogMessageLevel::Error.threshold() == LogMessageLevel::Off.threshold() + 1,
        LogMessageLevel::Warning.threshold() == LogMessageLevel::Error.threshold() + 1,
        LogMessageLevel::Info.threshold() == LogMessageLevel::Warning.threshold() + 1,
        LogMessageLevel::Log.threshold() == LogMessageLevel::Info.threshold() + 1,
{
}

/// Ending, calling off and asking keep apart what a pull is about: an accepted end
/// is remembered, calling off accepts nothing, a pull that is not under way cannot be
/// called off, and asking neither starts nor accepts one.
pub proof fn pulls_keep_their_facts(pull: PullView, started_by_pull: bool)
    ensures
        pull_completed(pull).0.accepted_once && !pull_completed(pull).0.active && !pull_completed(
            pull,
        ).0.refresh_pending,
        pull_completed(pull).1 == pull.refresh_pending,
        !pull.active ==> pull_aborted(pull, started_by_pull) == (pull, false),
        pull_aborted(pull, started_by_pull).0.accepted_once == pull.accepted_once,
        pull_aborted(pull, started_by_pull).1 ==> pull.active && pull.refresh_pending,
        pull.active && pull.refresh_pending && !started_by_pull ==> pull_aborted(
            pull,
            started_by_pull,
        ).1,
        refresh_asked(pull).0.active == pull.active,
        refresh_asked(pull).0.accepted_once == pull.accepted_once,
        refresh_asked(pull).1 == !pull.active,
{
}

/// Revisions go up by one, until they run out.
pub proof fn revisions_count_up(revision: u64)
    ensures
        revision < u64::MAX ==> revision_after(revision) == revision + 1,
        revision_after(revision) != revision,
{
}

/// Taking identifiers out concerns workspace diagnostics exactly where one of them
/// has a registration that provides them.
pub proof fn workspace_losses_are_noticed(
    known: Map<Seq<char>, RegistrationView>,
    ids: Seq<Seq<char>>,
)
    ensures
        unregistering_concerns_workspace(known, ids) <==> exists|i: int|
            0 <= i < ids.len() && known.contains_key(#[trigger] ids[i])
                && provides_workspace_diagnostics(known[ids[i]]),
{
    if unregistering_concerns_workspace(known, ids) {
        let id = choose|id: Seq<char>| #[trigger]
            ids.contains(id) && holds_workspace_registration(known, id);
        let i = choose|i: int| 0 <= i < ids.len() && ids[i] == id;
        assert(known.contains_key(ids[i]));
    }
    if exists|i: int|
        0 <= i < ids.len() && known.contains_key(#[trigger] ids[i])
            && provides_workspace_diagnostics(known[ids[i]]) {
        let i = choose|i: int|
            0 <= i < ids.len() && known.contains_key(#[trigger] ids[i])
                && provides_workspace_diagnostics(known[ids[i]]);
        assert(ids.contains(ids[i]));
        assert(holds_workspace_registration(known, ids[i]));
    }
}

/// Two registrations say the same exactly where identifier, method and options agree,
/// and a list says what each of its entries says.
pub proof fn registrations_say_every_part(
    one: Registration,
    two: Registration,
    list: Seq<Registration>,
    i: int,
)
    ensures
        one@ == two@ <==> one.id@ == two.id@ && one.method@ == two.method@ && one.register_options
            == two.register_options,
        registration_views(list).len() == list.len(),
        0 <= i < list.len() ==> registration_views(list)[i] == list[i]@,
{
}

} // verus!

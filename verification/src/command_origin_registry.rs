//! Which raw command names the downstream servers advertised, and which of
//! their connections can be brought back from the name alone.
//!
//! A name that was advertised once stays known for the whole session. What
//! changes is whether the editor currently holds a registration for it, and for
//! which connections it holds a routed name.

use crate::command_origins::{
    OriginsView, Recording, all_surviving, are_answers, can_start, claimed, concerns, ends_among,
    held_as_routed, is_concerned, is_orphaned, is_retired, is_retired_routed, known_of,
    lemma_reconciling_keeps_sound, lemma_recording_keeps_sound, lemma_retired_routed_step,
    lemma_retiring_keeps_sound, lemma_taking_back_keeps_sound, list_follows, loses_routed,
    nothing_known, origins_are_sound, orphaned_names, reconciled, reconnectable_lists_follow,
    record_all, record_one, registered_with, retired_routes, surviving, taken_back, withdrawn,
};
use crate::command_route::{
    RouteView, decode_command, encode_command, encoded, encoded_is_injective, is_routed,
};
use crate::connection_key::{
    ConnectionKey, KeyView, copy_keys, holds_key, key_views, lemma_key_views_push, without_key,
};
use crate::key_set::KeySet;
use crate::seqs::lemma_take_contains;
use crate::table::Table;
use crate::text::{holds_text, lemma_texts_push, same_text, texts};
use vstd::prelude::*;

verus! {

/// What is known about one advertised raw command name.
struct CommandOrigins {
    servers: KeySet<String>,
    reconnectable: Vec<ConnectionKey>,
    encoded_registered: KeySet<ConnectionKey>,
    registered_upstream: bool,
}

impl View for CommandOrigins {
    type V = OriginsView;

    closed spec fn view(&self) -> OriginsView {
        OriginsView {
            servers: self.servers@,
            reconnectable: key_views(self.reconnectable@),
            encoded: self.encoded_registered@,
            registered: self.registered_upstream,
        }
    }
}

impl CommandOrigins {
    spec fn wf(self) -> bool {
        self.servers.wf() && self.encoded_registered.wf()
    }

    fn new() -> (origins: Self)
        ensures
            origins.wf(),
            origins@ == nothing_known(),
    {
        let origins = CommandOrigins {
            servers: KeySet::new(),
            reconnectable: Vec::new(),
            encoded_registered: KeySet::new(),
            registered_upstream: false,
        };
        assert(key_views(origins.reconnectable@) =~= Seq::<KeyView>::empty());
        origins
    }
}

/// What a handshake's advertisement changed.
#[derive(Debug)]
pub struct RegistrationOutcome {
    /// Raw names that the editor is to be told about.
    pub newly_advertised: Vec<String>,
    /// Raw names that lost their last advertiser.
    pub orphaned: Vec<String>,
    /// Routed names that the editor is to be told about.
    pub newly_encoded: Vec<String>,
    /// Routed names that the connection no longer backs.
    pub retired_encoded: Vec<String>,
}

/// Everything that is known about advertised command names.
pub struct CommandOriginRegistry {
    origins: Table<String, CommandOrigins>,
}

impl View for CommandOriginRegistry {
    type V = Map<Seq<char>, OriginsView>;

    closed spec fn view(&self) -> Map<Seq<char>, OriginsView> {
        Map::new(
            |name: Seq<char>| self.origins@.contains_key(name),
            |name: Seq<char>| self.origins@[name]@,
        )
    }
}

impl Default for CommandOriginRegistry {
    fn default() -> (registry: Self)
        ensures
            registry.wf(),
            registry@ == Map::<Seq<char>, OriginsView>::empty(),
    {
        CommandOriginRegistry::new()
    }
}

impl CommandOriginRegistry {
    /// The parts of the registry are well formed, and what is known is sound.
    pub closed spec fn wf(self) -> bool {
        self.parts_wf() && origins_are_sound(self@)
    }

    /// What is known is sound.
    pub proof fn lemma_sound(self)
        requires
            self.wf(),
        ensures
            origins_are_sound(self@),
    {
    }

    spec fn parts_wf(self) -> bool {
        &&& self.origins.wf()
        &&& forall|name: Seq<char>| #[trigger]
            self.origins@.contains_key(name) ==> self.origins@[name].wf()
    }

    /// The known names in the order in which they were first advertised.
    pub closed spec fn names(self) -> Seq<Seq<char>> {
        self.origins.keys()
    }

    /// The ordered names are the known names, each once.
    pub proof fn lemma_names(self)
        requires
            self.wf(),
        ensures
            self.names().no_duplicates(),
            forall|name: Seq<char>|
                self@.contains_key(name) <==> #[trigger] self.names().contains(name),
    {
        self.origins.lemma_keys();
    }

    /// A registry that knows no name.
    pub fn new() -> (registry: Self)
        ensures
            registry.wf(),
            registry@ == Map::<Seq<char>, OriginsView>::empty(),
    {
        let registry = CommandOriginRegistry { origins: Table::new() };
        assert(registry@ =~= Map::<Seq<char>, OriginsView>::empty());
        registry
    }

    /// Whether some connection of a server is in the set.
    fn has_connection_of(keys: &KeySet<ConnectionKey>, server: &str) -> (has: bool)
        requires
            keys.wf(),
        ensures
            has == exists|other: KeyView| #[trigger] keys@.contains(other) && other.server == server@,
    {
        proof {
            keys.lemma_ordered();
        }
        let mut i: usize = 0;
        while i < keys.len()
            invariant
                keys.wf(),
                i <= keys.ordered().len(),
                forall|j: int| 0 <= j < i ==> (#[trigger] keys.ordered()[j]).server != server@,
            decreases keys.ordered().len() - i,
        {
            if same_text(keys.item_at(i).server(), server) {
                proof {
                    keys.lemma_ordered();
                    assert(keys@.contains(keys.ordered()[i as int]));
                }
                return true;
            }
            i += 1;
        }
        assert forall|other: KeyView| #[trigger] keys@.contains(other) implies other.server
            != server@ by {
            assert(keys.ordered().contains(other));
        }
        false
    }

    /// Drops the claims of one connection on one name. Says whether the routed
    /// name goes, and whether the editor's registration of the raw name goes.
    fn withdraw(known: &mut CommandOrigins, key: &ConnectionKey) -> (lost: (bool, bool))
        requires
            old(known).wf(),
        ensures
            final(known).wf(),
            final(known)@ == withdrawn(old(known)@, key@),
            lost.0 == old(known)@.encoded.contains(key@),
            lost.1 == (old(known)@.registered && !final(known)@.registered),
    {
        known.reconnectable = without_key(&known.reconnectable, key);
        let routed = known.encoded_registered.remove(key);
        if !Self::has_connection_of(&known.encoded_registered, key.server()) {
            known.servers.remove(&key.server().to_owned());
        }
        let mut orphaned = false;
        if known.registered_upstream && known.servers.is_empty() {
            known.registered_upstream = false;
            orphaned = true;
        }
        (routed, orphaned)
    }

    /// Drops the claims of `key` on every name that is not in `commands`. Gives
    /// back the names that lost the editor's registration with their last
    /// advertiser, and the routed names that `key` no longer backs.
    pub fn reconcile(
        &mut self,
        key: &ConnectionKey,
        commands: &Vec<String>,
    ) -> (dropped: (Vec<String>, Vec<String>))
        requires
            old(self).wf(),
        ensures
            final(self).wf(),
            final(self)@ == reconciled(old(self)@, key@, texts(commands@)),
            texts(dropped.0@) == orphaned_names(
                old(self).names(),
                old(self)@,
                key@,
                texts(commands@),
            ),
            texts(dropped.1@) == retired_routes(
                old(self).names(),
                old(self)@,
                key@,
                texts(commands@),
            ),
    {
        let ghost before = self@;
        let ghost names = self.names();
        let ghost said = texts(commands@);
        let ghost orphans = |name: Seq<char>| is_orphaned(before, key@, said, name);
        let ghost unrouted = |name: Seq<char>| loses_routed(before, key@, said, name);
        let ghost route = |name: Seq<char>| encoded(key@, name);
        let mut orphaned: Vec<String> = Vec::new();
        let mut retired_encoded: Vec<String> = Vec::new();
        let mut i: usize = 0;
        proof {
            self.origins.lemma_keys();
            reveal(Seq::filter);
            assert(names.take(0) =~= Seq::<Seq<char>>::empty());
            assert(texts(orphaned@) =~= names.take(0).filter(orphans));
            assert(texts(retired_encoded@) =~= names.take(0).filter(unrouted).map_values(route));
        }
        while i < self.origins.len()
            invariant
                self.parts_wf(),
                self.origins.keys() == names,
                names.no_duplicates(),
                i <= names.len(),
                said == texts(commands@),
                orphans == (|name: Seq<char>| is_orphaned(before, key@, said, name)),
                unrouted == (|name: Seq<char>| loses_routed(before, key@, said, name)),
                route == (|name: Seq<char>| encoded(key@, name)),
                forall|name: Seq<char>| #[trigger]
                    before.contains_key(name) <==> names.contains(name),
                forall|j: int|
                    0 <= j < names.len() ==> self.origins@[#[trigger] names[j]]@ == (if j < i {
                        reconciled(before, key@, said)[names[j]]
                    } else {
                        before[names[j]]
                    }),
                texts(orphaned@) == names.take(i as int).filter(orphans),
                texts(retired_encoded@) == names.take(i as int).filter(unrouted).map_values(route),
            decreases names.len() - i,
        {
            let ghost name = names[i as int];
            let ghost seen = names.take(i as int);
            proof {
                self.origins.lemma_keys();
                assert(names.take(i as int + 1) =~= seen.push(name));
                seen.lemma_filter_push(name, orphans);
                seen.lemma_filter_push(name, unrouted);
                assert(seen.filter(unrouted).push(name).map_values(route) =~= seen.filter(
                    unrouted,
                ).map_values(route).push(encoded(key@, name)));
                assert(before.contains_key(name));
            }
            let command = self.origins.key_at(i).clone();
            if !holds_text(commands, command.as_str()) {
                let known = self.origins.value_at_mut(i);
                let (routed, lost) = Self::withdraw(known, key);
                if routed {
                    let text = encode_command(key, command.as_str());
                    proof {
                        lemma_texts_push(retired_encoded@, text);
                    }
                    retired_encoded.push(text);
                }
                if lost {
                    proof {
                        lemma_texts_push(orphaned@, command);
                    }
                    orphaned.push(command);
                }
            }
            i += 1;
        }
        proof {
            self.origins.lemma_keys();
            assert(names.take(names.len() as int) =~= names);
            assert(self@ =~= reconciled(before, key@, said)) by {
                assert forall|name: Seq<char>| self@.contains_key(name) implies self@[name]
                    == reconciled(before, key@, said)[name] by {
                    let j = choose|j: int| 0 <= j < names.len() && names[j] == name;
                    assert(names.contains(name));
                    assert(names[j] == name);
                }
                assert forall|name: Seq<char>| self@.contains_key(name) == reconciled(
                    before,
                    key@,
                    said,
                ).contains_key(name) by {
                    assert(self.origins.keys().contains(name) == names.contains(name));
                    assert(before.contains_key(name) <==> names.contains(name));
                }
            }
        }
        proof {
            lemma_reconciling_keeps_sound(before, key@, said);
        }
        (orphaned, retired_encoded)
    }

    /// Whether `name` is a routed name that the editor was asked to hold.
    ///
    /// A text that could be read as a routed name is not enough: the routed name
    /// itself has to be held.
    pub fn holds_encoded(&self, name: &str) -> (held: bool)
        requires
            self.wf(),
        ensures
            held == held_as_routed(self@, name@),
    {
        let route = match decode_command(name) {
            Some(route) => route,
            None => {
                assert(!is_routed(name@));
                return false;
            },
        };
        assert forall|other: RouteView| name@ == #[trigger] encoded(
            other.key,
            other.command,
        ) implies other == route@ by {
            encoded_is_injective(other, route@);
        }
        assert(name@ == encoded(route@.key, route@.command));
        match self.origins.get(&route.command) {
            Some(known) => {
                assert(self.origins@.contains_key(route.command@));
                known.encoded_registered.contains(&route.key)
            },
            None => false,
        }
    }

    /// Records that `key` advertises `command`. Says whether the raw name is to
    /// be announced, and gives the routed name that is to be announced.
    fn record(&mut self, key: &ConnectionKey, command: &String) -> (news: (bool, Option<String>))
        requires
            old(self).wf(),
        ensures
            final(self).wf(),
            ({
                let start = Recording {
                    origins: old(self)@,
                    newly_advertised: Seq::empty(),
                    newly_encoded: Seq::empty(),
                };
                let after = record_one(start, key@, command@);
                &&& final(self)@ == after.origins
                &&& after.newly_advertised == (if news.0 {
                    seq![command@]
                } else {
                    Seq::empty()
                })
                &&& after.newly_encoded == (match news.1 {
                    Some(text) => seq![text@],
                    None => Seq::empty(),
                })
            }),
    {
        let text = encode_command(key, command.as_str());
        let routed_is_known = self.origins.contains(&text);
        let withheld = self.holds_encoded(command.as_str());
        if !self.origins.contains(command) {
            self.origins.insert(command.clone(), CommandOrigins::new());
        }
        let ghost start = self.origins@[command@]@;
        assert(start == known_of(old(self)@, command@));
        let mut announce_raw = false;
        let mut announce_routed = None;
        match self.origins.get_mut(command) {
            Some(known) => {
                known.servers.insert(key.server().to_owned());
                if key.is_client_fallback() && !holds_key(&known.reconnectable, key) {
                    let added = key.clone();
                    proof {
                        lemma_key_views_push(known.reconnectable@, added);
                    }
                    known.reconnectable.push(added);
                }
                let is_new = known.encoded_registered.insert(key.clone());
                if is_new && !routed_is_known {
                    announce_routed = Some(text);
                }
                if !known.registered_upstream && !withheld {
                    known.registered_upstream = true;
                    announce_raw = true;
                }
                assert(known@ == claimed(start, key@, withheld));
            },
            None => {},
        }
        assert(self@ =~= old(self)@.insert(command@, claimed(start, key@, withheld)));
        proof {
            lemma_recording_keeps_sound(
                Recording {
                    origins: old(self)@,
                    newly_advertised: Seq::empty(),
                    newly_encoded: Seq::empty(),
                },
                key@,
                command@,
            );
        }
        assert(Seq::<Seq<char>>::empty().push(command@) =~= seq![command@]);
        assert(Seq::<Seq<char>>::empty().push(text@) =~= seq![text@]);
        (announce_raw, announce_routed)
    }

    /// Records that `key` advertises exactly `commands`, and says what changed.
    ///
    /// `commands` is the whole list, so a name that is missing from it is no
    /// longer served by `key`. A name that the editor holds already is not
    /// announced again; one whose registration was retired is.
    pub fn register(
        &mut self,
        key: &ConnectionKey,
        commands: Vec<String>,
    ) -> (outcome: RegistrationOutcome)
        requires
            old(self).wf(),
        ensures
            final(self).wf(),
            final(self)@ == registered_with(old(self)@, key@, texts(commands@)).origins,
            texts(outcome.newly_advertised@) == registered_with(
                old(self)@,
                key@,
                texts(commands@),
            ).newly_advertised,
            texts(outcome.newly_encoded@) == registered_with(
                old(self)@,
                key@,
                texts(commands@),
            ).newly_encoded,
            texts(outcome.orphaned@) == orphaned_names(
                old(self).names(),
                old(self)@,
                key@,
                texts(commands@),
            ),
            texts(outcome.retired_encoded@) == retired_routes(
                old(self).names(),
                old(self)@,
                key@,
                texts(commands@),
            ),
            forall|name: Seq<char>|
                list_follows(
                    known_of(old(self)@, name).reconnectable,
                    (#[trigger] known_of(final(self)@, name)).reconnectable,
                    key@,
                    texts(commands@).contains(name),
                ),
    {
        let ghost said = texts(commands@);
        let ghost known_before = self@;
        let (orphaned, retired_encoded) = self.reconcile(key, &commands);
        let ghost start = Recording {
            origins: self@,
            newly_advertised: Seq::empty(),
            newly_encoded: Seq::empty(),
        };
        let mut newly_advertised: Vec<String> = Vec::new();
        let mut newly_encoded: Vec<String> = Vec::new();
        let mut i: usize = 0;
        proof {
            assert(said.take(0) =~= Seq::<Seq<char>>::empty());
            assert(texts(newly_advertised@) =~= Seq::<Seq<char>>::empty());
            assert(texts(newly_encoded@) =~= Seq::<Seq<char>>::empty());
        }
        while i < commands.len()
            invariant
                self.wf(),
                i <= commands@.len(),
                said == texts(commands@),
                self@ == record_all(start, key@, said.take(i as int)).origins,
                texts(newly_advertised@) == record_all(
                    start,
                    key@,
                    said.take(i as int),
                ).newly_advertised,
                texts(newly_encoded@) == record_all(
                    start,
                    key@,
                    said.take(i as int),
                ).newly_encoded,
            decreases commands@.len() - i,
        {
            let ghost so_far = record_all(start, key@, said.take(i as int));
            proof {
                assert(said.take(i as int + 1).drop_last() =~= said.take(i as int));
                assert(said.take(i as int + 1).last() == commands@[i as int]@);
            }
            let (announce_raw, announce_routed) = self.record(key, &commands[i]);
            let ghost after = record_one(so_far, key@, commands@[i as int]@);
            proof {
                let alone = record_one(
                    Recording {
                        origins: so_far.origins,
                        newly_advertised: Seq::empty(),
                        newly_encoded: Seq::empty(),
                    },
                    key@,
                    commands@[i as int]@,
                );
                assert(after.newly_advertised =~= so_far.newly_advertised + alone.newly_advertised);
                assert(after.newly_encoded =~= so_far.newly_encoded + alone.newly_encoded);
            }
            if announce_raw {
                let name = commands[i].clone();
                proof {
                    lemma_texts_push(newly_advertised@, name);
                    assert(seq![name@][0] == name@);
                }
                newly_advertised.push(name);
            }
            if let Some(text) = announce_routed {
                proof {
                    lemma_texts_push(newly_encoded@, text);
                    assert(seq![text@][0] == text@);
                }
                newly_encoded.push(text);
            }
            i += 1;
            assert(texts(newly_advertised@) == after.newly_advertised);
            assert(texts(newly_encoded@) == after.newly_encoded);
        }
        assert(said.take(said.len() as int) =~= said);
        assert forall|name: Seq<char>|
            list_follows(
                known_of(known_before, name).reconnectable,
                (#[trigger] known_of(self@, name)).reconnectable,
                key@,
                said.contains(name),
            ) by {
            reconnectable_lists_follow(known_before, key@, said, name);
        }
        RegistrationOutcome { newly_advertised, orphaned, newly_encoded, retired_encoded }
    }

    /// The connections that advertised `command` and can be brought back from
    /// the name alone, in the order in which they first advertised it.
    pub fn reconnectable_origins(&self, command: &str) -> (keys: Vec<ConnectionKey>)
        requires
            self.wf(),
        ensures
            key_views(keys@) == known_of(self@, command@).reconnectable,
    {
        match self.origins.get(&command.to_owned()) {
            Some(known) => copy_keys(&known.reconnectable),
            None => {
                let none: Vec<ConnectionKey> = Vec::new();
                assert(key_views(none@) =~= Seq::<KeyView>::empty());
                none
            },
        }
    }

    /// Whether some server ever advertised `command`.
    pub fn is_registered(&self, command: &str) -> (known: bool)
        requires
            self.wf(),
        ensures
            known == self@.contains_key(command@),
    {
        self.origins.contains(&command.to_owned())
    }

    /// Takes back what an announcement that never reached the editor recorded:
    /// the raw names, and apart from them the routed names.
    pub fn forget_registration(&mut self, outcome: &RegistrationOutcome)
        requires
            old(self).wf(),
        ensures
            final(self).wf(),
            final(self)@ == taken_back(
                old(self)@,
                texts(outcome.newly_advertised@),
                texts(outcome.newly_encoded@),
            ),
    {
        let ghost before = self@;
        let ghost raw = texts(outcome.newly_advertised@);
        let ghost routed = texts(outcome.newly_encoded@);
        let ghost none = Seq::<Seq<char>>::empty();
        let mut i: usize = 0;
        assert(raw.take(0) =~= none);
        assert(self@ =~= taken_back(before, raw.take(0), none)) by {
            assert forall|name: Seq<char>| before.contains_key(name) implies taken_back(
                before,
                raw.take(0),
                none,
            )[name] == before[name] by {
                assert(taken_back(before, raw.take(0), none)[name].encoded =~= before[name].encoded);
            }
        }
        while i < outcome.newly_advertised.len()
            invariant
                self.parts_wf(),
                i <= raw.len(),
                raw == texts(outcome.newly_advertised@),
                none == Seq::<Seq<char>>::empty(),
                self@ == taken_back(before, raw.take(i as int), none),
            decreases raw.len() - i,
        {
            let ghost start = self@;
            let ghost name = raw[i as int];
            match self.origins.get_mut(&outcome.newly_advertised[i]) {
                Some(known) => {
                    known.registered_upstream = false;
                },
                None => {},
            }
            proof {
                let now = raw.take(i as int + 1);
                assert(now =~= raw.take(i as int).push(name));
                assert(now.contains(name)) by {
                    assert(now[i as int] == name);
                }
                assert forall|other: Seq<char>| other != name implies raw.take(i as int).contains(
                    other,
                ) == now.contains(other) by {
                    if now.contains(other) {
                        let j = choose|j: int| 0 <= j < now.len() && now[j] == other;
                        assert(raw.take(i as int)[j] == other);
                    }
                    if raw.take(i as int).contains(other) {
                        let j = choose|j: int|
                            0 <= j < raw.take(i as int).len() && raw.take(i as int)[j] == other;
                        assert(now[j] == other);
                    }
                }
                let target = taken_back(before, now, none);
                assert forall|other: Seq<char>| self@.contains_key(other) implies self@[other]
                    == target[other] by {
                    assert(start[other].encoded == target[other].encoded);
                    assert(raw.take(i as int).contains(other) || other == name || !now.contains(other));
                    assert(self@[other].encoded == start[other].encoded);
                    assert(self@[other].servers == start[other].servers);
                    assert(self@[other].reconnectable == start[other].reconnectable);
                }
                assert(self@ =~= target);
            }
            i += 1;
        }
        assert(raw.take(raw.len() as int) =~= raw);
        let mut i: usize = 0;
        assert(routed.take(0) =~= none);
        while i < outcome.newly_encoded.len()
            invariant
                self.parts_wf(),
                i <= routed.len(),
                routed == texts(outcome.newly_encoded@),
                self@ == taken_back(before, raw, routed.take(i as int)),
            decreases routed.len() - i,
        {
            let ghost start = self@;
            let ghost text = routed[i as int];
            let ghost seen = routed.take(i as int);
            let ghost now = routed.take(i as int + 1);
            proof {
                assert(now =~= seen.push(text));
                assert forall|other: Seq<char>| #[trigger] now.contains(other) == (seen.contains(
                    other,
                ) || other == text) by {
                    if now.contains(other) {
                        let j = choose|j: int| 0 <= j < now.len() && now[j] == other;
                        if j < i {
                            assert(seen[j] == other);
                        }
                    }
                    if seen.contains(other) {
                        let j = choose|j: int| 0 <= j < seen.len() && seen[j] == other;
                        assert(now[j] == other);
                    }
                    assert(now[i as int] == text);
                }
            }
            match decode_command(outcome.newly_encoded[i].as_str()) {
                Some(route) => {
                    proof {
                        assert(text == encoded(route@.key, route@.command));
                        assert forall|key: KeyView, name: Seq<char>| #[trigger] encoded(key, name)
                            == text implies key == route@.key && name == route@.command by {
                            encoded_is_injective(RouteView { key, command: name }, route@);
                        }
                    }
                    match self.origins.get_mut(&route.command) {
                        Some(known) => {
                            known.encoded_registered.remove(&route.key);
                        },
                        None => {},
                    }
                    proof {
                        let target = taken_back(before, raw, now);
                        assert forall|name: Seq<char>| self@.contains_key(name) implies self@[name]
                            == target[name] by {
                            assert(self@[name].encoded == (if name == route@.command {
                                start[name].encoded.remove(route@.key)
                            } else {
                                start[name].encoded
                            }));
                            assert forall|key: KeyView| self@[name].encoded.contains(key)
                                == target[name].encoded.contains(key) by {
                                assert(now.contains(encoded(key, name)) == (seen.contains(
                                    encoded(key, name),
                                ) || encoded(key, name) == text));
                            }
                            assert(self@[name].encoded =~= target[name].encoded);
                            assert(self@[name].servers == start[name].servers);
                            assert(self@[name].reconnectable == start[name].reconnectable);
                            assert(self@[name].registered == start[name].registered);
                        }
                        assert(self@ =~= target);
                    }
                },
                None => {
                    proof {
                        let target = taken_back(before, raw, now);
                        assert forall|name: Seq<char>| self@.contains_key(name) implies self@[name]
                            == target[name] by {
                            assert forall|key: KeyView| encoded(key, name) != text by {
                                let route = RouteView { key, command: name };
                                assert(encoded(route.key, route.command) == encoded(key, name));
                            }
                            assert(self@[name].encoded =~= target[name].encoded);
                        }
                        assert(self@ =~= target);
                    }
                },
            }
            i += 1;
        }
        assert(routed.take(routed.len() as int) =~= routed);
        proof {
            lemma_taking_back_keeps_sound(before, raw, routed);
        }
    }

    /// Asks `is_spawnable` about one server, unless it was asked before.
    fn ask<F: Fn(&str) -> bool>(
        is_spawnable: &F,
        verdicts: &mut Table<String, bool>,
        server: &str,
    )
        requires
            old(verdicts).wf(),
            forall|asked: &str| call_requires(*is_spawnable, (asked,)),
        ensures
            final(verdicts).wf(),
            final(verdicts)@.dom() == old(verdicts)@.dom().insert(server@),
            forall|other: Seq<char>|
                old(verdicts)@.contains_key(other) ==> final(verdicts)@[other]
                    == #[trigger] old(verdicts)@[other],
            old(verdicts)@.contains_key(server@) || exists|asked: &str|
                asked@ == server@ && #[trigger] call_ensures(
                    *is_spawnable,
                    (asked,),
                    final(verdicts)@[server@],
                ),
    {
        let text = server.to_owned();
        if !verdicts.contains(&text) {
            let verdict = is_spawnable(server);
            verdicts.insert(text, verdict);
            assert(verdicts@[server@] == verdict);
            assert(call_ensures(*is_spawnable, (server,), verdicts@[server@]));
        }
        assert(verdicts@.dom() =~= old(verdicts)@.dom().insert(server@));
    }

    /// Asks about every server that one name concerns.
    fn ask_for_name<F: Fn(&str) -> bool>(
        is_spawnable: &F,
        verdicts: &mut Table<String, bool>,
        known: &CommandOrigins,
    )
        requires
            known.wf(),
            old(verdicts).wf(),
            forall|asked: &str| call_requires(*is_spawnable, (asked,)),
            forall|server: Seq<char>| #[trigger]
                old(verdicts)@.contains_key(server) ==> exists|asked: &str|
                    asked@ == server && #[trigger] call_ensures(
                        *is_spawnable,
                        (asked,),
                        old(verdicts)@[server],
                    ),
        ensures
            final(verdicts).wf(),
            forall|server: Seq<char>| #[trigger]
                final(verdicts)@.contains_key(server) <==> old(verdicts)@.contains_key(server)
                    || concerns(known@, server),
            forall|server: Seq<char>| #[trigger]
                final(verdicts)@.contains_key(server) ==> exists|asked: &str|
                    asked@ == server && #[trigger] call_ensures(
                        *is_spawnable,
                        (asked,),
                        final(verdicts)@[server],
                    ),
    {
        let ghost start = verdicts@;
        let ghost servers = known.servers.ordered();
        let mut i: usize = 0;
        while i < known.servers.len()
            invariant
                known.wf(),
                servers == known.servers.ordered(),
                i <= servers.len(),
                verdicts.wf(),
                forall|asked: &str| call_requires(*is_spawnable, (asked,)),
                forall|server: Seq<char>| #[trigger]
                    verdicts@.contains_key(server) <==> start.contains_key(server) || servers.take(
                        i as int,
                    ).contains(server),
                forall|server: Seq<char>| #[trigger]
                    verdicts@.contains_key(server) ==> exists|asked: &str|
                        asked@ == server && #[trigger] call_ensures(
                            *is_spawnable,
                            (asked,),
                            verdicts@[server],
                        ),
            decreases servers.len() - i,
        {
            proof {
                lemma_take_contains(servers, i as int);
            }
            Self::ask(is_spawnable, verdicts, known.servers.item_at(i).as_str());
            i += 1;
        }
        let ghost middle = verdicts@;
        let ghost keys = known.encoded_registered.ordered();
        proof {
            known.servers.lemma_ordered();
            known.encoded_registered.lemma_ordered();
            assert(servers.take(servers.len() as int) =~= servers);
        }
        let mut i: usize = 0;
        while i < known.encoded_registered.len()
            invariant
                known.wf(),
                keys == known.encoded_registered.ordered(),
                i <= keys.len(),
                verdicts.wf(),
                forall|asked: &str| call_requires(*is_spawnable, (asked,)),
                forall|server: Seq<char>| #[trigger]
                    verdicts@.contains_key(server) <==> middle.contains_key(server) || exists|
                        j: int,
                    |
                        0 <= j < i && (#[trigger] keys[j]).server == server,
                forall|server: Seq<char>| #[trigger]
                    verdicts@.contains_key(server) ==> exists|asked: &str|
                        asked@ == server && #[trigger] call_ensures(
                            *is_spawnable,
                            (asked,),
                            verdicts@[server],
                        ),
            decreases keys.len() - i,
        {
            let ghost before = verdicts@;
            let ghost asked_now = keys[i as int].server;
            Self::ask(is_spawnable, verdicts, known.encoded_registered.item_at(i).server());
            i += 1;
            assert forall|server: Seq<char>| #[trigger]
                verdicts@.contains_key(server) <==> middle.contains_key(server) || exists|j: int|
                    0 <= j < i && (#[trigger] keys[j]).server == server by {
                assert(verdicts@.dom().contains(server) == (before.dom().contains(server) || server
                    == asked_now));
                assert(keys[i as int - 1].server == asked_now);
            }
        }
        assert forall|server: Seq<char>| #[trigger]
            verdicts@.contains_key(server) <==> start.contains_key(server) || concerns(
                known@,
                server,
            ) by {
            if exists|key: KeyView| #[trigger]
                known@.encoded.contains(key) && key.server == server {
                let key = choose|key: KeyView| #[trigger]
                    known@.encoded.contains(key) && key.server == server;
                assert(keys.contains(key));
            }
            assert(known@.servers.contains(server) == servers.contains(server));
        }
    }

    /// Whether a server was found able to be started.
    fn found_startable(verdicts: &Table<String, bool>, server: &str) -> (found: bool)
        requires
            verdicts.wf(),
        ensures
            found == can_start(verdicts@, server@),
    {
        match verdicts.get(&server.to_owned()) {
            Some(verdict) => *verdict,
            None => false,
        }
    }

    /// Whether a name has advertisers, none of which can be started.
    fn has_no_starter(known: &CommandOrigins, verdicts: &Table<String, bool>) -> (none: bool)
        requires
            known.wf(),
            verdicts.wf(),
        ensures
            none == (!(known@.servers =~= Set::<Seq<char>>::empty()) && !exists|
                server: Seq<char>,
            |
                #[trigger] known@.servers.contains(server) && can_start(verdicts@, server)),
    {
        let ghost servers = known.servers.ordered();
        proof {
            known.servers.lemma_ordered();
        }
        if known.servers.is_empty() {
            return false;
        }
        let mut i: usize = 0;
        while i < known.servers.len()
            invariant
                known.wf(),
                verdicts.wf(),
                servers == known.servers.ordered(),
                i <= servers.len(),
                forall|j: int| 0 <= j < i ==> !can_start(verdicts@, #[trigger] servers[j]),
            decreases servers.len() - i,
        {
            if Self::found_startable(verdicts, known.servers.item_at(i).as_str()) {
                proof {
                    known.servers.lemma_ordered();
                    assert(known@.servers.contains(servers[i as int]));
                }
                return false;
            }
            i += 1;
        }
        assert forall|server: Seq<char>| #[trigger] known@.servers.contains(server) implies !can_start(
            verdicts@,
            server,
        ) by {
            assert(servers.contains(server));
        }
        true
    }

    /// Takes the routed names of one command out whose server cannot be started,
    /// and appends their texts to `retired`.
    fn retire_routed(
        known: &mut CommandOrigins,
        command: &str,
        verdicts: &Table<String, bool>,
        retired: &mut Vec<String>,
    )
        requires
            old(known).wf(),
            verdicts.wf(),
        ensures
            final(known).wf(),
            final(known)@.servers == old(known)@.servers,
            final(known)@.reconnectable == old(known)@.reconnectable,
            final(known)@.registered == old(known)@.registered,
            final(known)@.encoded == surviving(old(known)@, verdicts@).encoded,
            final(known).servers == old(known).servers,
            ({
                let gone = old(known).encoded_registered.ordered().filter(
                    |key: KeyView| !can_start(verdicts@, key.server),
                );
                texts(final(retired)@) == texts(old(retired)@) + gone.map_values(
                    |key: KeyView| encoded(key, command@),
                )
            }),
    {
        let ghost keys = known.encoded_registered.ordered();
        let ghost dead = |key: KeyView| !can_start(verdicts@, key.server);
        let ghost route = |key: KeyView| encoded(key, command@);
        let ghost start = texts(retired@);
        let mut alive: KeySet<ConnectionKey> = KeySet::new();
        let mut i: usize = 0;
        proof {
            known.encoded_registered.lemma_ordered();
            reveal(Seq::filter);
            assert(keys.take(0) =~= Seq::<KeyView>::empty());
            assert(texts(retired@) =~= start + keys.take(0).filter(dead).map_values(route));
        }
        while i < known.encoded_registered.len()
            invariant
                known.wf(),
                alive.wf(),
                verdicts.wf(),
                *known == *old(known),
                keys == known.encoded_registered.ordered(),
                i <= keys.len(),
                dead == (|key: KeyView| !can_start(verdicts@, key.server)),
                route == (|key: KeyView| encoded(key, command@)),
                forall|key: KeyView| #[trigger]
                    alive@.contains(key) <==> keys.take(i as int).contains(key) && can_start(
                        verdicts@,
                        key.server,
                    ),
                texts(retired@) == start + keys.take(i as int).filter(dead).map_values(route),
            decreases keys.len() - i,
        {
            let ghost seen = keys.take(i as int);
            let ghost key = keys[i as int];
            proof {
                lemma_take_contains(keys, i as int);
                assert(keys.take(i as int + 1) =~= seen.push(key));
                seen.lemma_filter_push(key, dead);
                assert(seen.filter(dead).push(key).map_values(route) =~= seen.filter(
                    dead,
                ).map_values(route).push(encoded(key, command@)));
            }
            let current = known.encoded_registered.item_at(i).clone();
            if Self::found_startable(verdicts, current.server()) {
                alive.insert(current);
            } else {
                let text = encode_command(&current, command);
                proof {
                    lemma_texts_push(retired@, text);
                }
                retired.push(text);
                assert(texts(retired@) =~= start + keys.take(i as int + 1).filter(dead).map_values(
                    route,
                ));
            }
            i += 1;
        }
        proof {
            assert(keys.take(keys.len() as int) =~= keys);
            assert forall|key: KeyView| alive@.contains(key) == surviving(
                old(known)@,
                verdicts@,
            ).encoded.contains(key) by {
                assert(known@.encoded.contains(key) == keys.contains(key));
            }
            assert(alive@ =~= surviving(old(known)@, verdicts@).encoded);
        }
        known.encoded_registered = alive;
    }

    /// Ends what only servers that cannot be started stood for. Gives back the
    /// routed names and the raw names that end.
    pub fn retire_by(&mut self, verdicts: &Table<String, bool>) -> (retired: (
        Vec<String>,
        Vec<String>,
    ))
        requires
            old(self).wf(),
            verdicts.wf(),
        ensures
            final(self).wf(),
            final(self)@ == all_surviving(old(self)@, verdicts@),
            texts(retired.0@).no_duplicates(),
            forall|text: Seq<char>| #[trigger]
                texts(retired.0@).contains(text) <==> is_retired_routed(
                    old(self)@,
                    verdicts@,
                    text,
                ),
            texts(retired.1@) == old(self).names().filter(
                |name: Seq<char>| is_retired(old(self)@, verdicts@, name),
            ),
    {
        let ghost before = self@;
        let ghost names = self.names();
        let ghost ends = |name: Seq<char>| is_retired(before, verdicts@, name);
        let mut routed: Vec<String> = Vec::new();
        let mut raw: Vec<String> = Vec::new();
        let mut i: usize = 0;
        proof {
            self.origins.lemma_keys();
            reveal(Seq::filter);
            assert(names.take(0) =~= Seq::<Seq<char>>::empty());
            assert(texts(raw@) =~= names.take(0).filter(ends));
            assert(texts(routed@) =~= Seq::<Seq<char>>::empty());
        }
        while i < self.origins.len()
            invariant
                self.parts_wf(),
                verdicts.wf(),
                self.origins.keys() == names,
                names.no_duplicates(),
                i <= names.len(),
                ends == (|name: Seq<char>| is_retired(before, verdicts@, name)),
                forall|name: Seq<char>| #[trigger]
                    before.contains_key(name) <==> names.contains(name),
                forall|j: int|
                    0 <= j < names.len() ==> self.origins@[#[trigger] names[j]]@ == (if j < i {
                        surviving(before[names[j]], verdicts@)
                    } else {
                        before[names[j]]
                    }),
                texts(raw@) == names.take(i as int).filter(ends),
                texts(routed@).no_duplicates(),
                forall|text: Seq<char>| #[trigger]
                    texts(routed@).contains(text) <==> ends_among(
                        before,
                        verdicts@,
                        names.take(i as int),
                        text,
                    ),
            decreases names.len() - i,
        {
            let ghost name = names[i as int];
            let ghost seen = names.take(i as int);
            let ghost routed_before = texts(routed@);
            proof {
                self.origins.lemma_keys();
                lemma_take_contains(names, i as int);
                assert(names.take(i as int + 1) =~= seen.push(name));
                seen.lemma_filter_push(name, ends);
                assert(before.contains_key(name));
                assert(!seen.contains(name)) by {
                    if seen.contains(name) {
                        let j = choose|j: int| 0 <= j < seen.len() && seen[j] == name;
                        assert(names[j] == names[i as int]);
                    }
                }
            }
            let command = self.origins.key_at(i).clone();
            let known = self.origins.value_at_mut(i);
            let ghost keys = known.encoded_registered.ordered();
            proof {
                known.encoded_registered.lemma_ordered();
            }
            Self::retire_routed(known, command.as_str(), verdicts, &mut routed);
            proof {
                lemma_retired_routed_step(
                    before,
                    verdicts@,
                    seen,
                    name,
                    keys,
                    routed_before,
                    texts(routed@),
                );
                assert(seen.push(name) =~= names.take(i as int + 1));
            }
            if known.registered_upstream && Self::has_no_starter(known, verdicts) {
                known.registered_upstream = false;
                proof {
                    lemma_texts_push(raw@, command);
                }
                raw.push(command);
            }
            i += 1;
        }
        proof {
            self.origins.lemma_keys();
            assert(names.take(names.len() as int) =~= names);
            assert(self@ =~= all_surviving(before, verdicts@)) by {
                assert forall|name: Seq<char>| self@.contains_key(name) implies self@[name]
                    == all_surviving(before, verdicts@)[name] by {
                    assert(names.contains(name));
                    let j = choose|j: int| 0 <= j < names.len() && names[j] == name;
                    assert(names[j] == name);
                }
                assert forall|name: Seq<char>| self@.contains_key(name) == before.contains_key(
                    name,
                ) by {
                    assert(self.origins.keys().contains(name) == names.contains(name));
                }
            }
            assert forall|text: Seq<char>| #[trigger]
                texts(routed@).contains(text) <==> is_retired_routed(before, verdicts@, text) by {
                assert(texts(routed@).contains(text) <==> ends_among(before, verdicts@, names, text));
            }
        }
        proof {
            lemma_retiring_keeps_sound(before, verdicts@);
        }
        (routed, raw)
    }

    /// Ends what only servers stood for that `is_spawnable` says cannot be
    /// started, after asking about each server that is concerned. Gives back
    /// the names that the editor is to let go: the routed ones, then the raw
    /// ones.
    pub fn retire_unadvertisable<F: Fn(&str) -> bool>(&mut self, is_spawnable: F) -> (retired: Vec<
        String,
    >)
        requires
            old(self).wf(),
            forall|asked: &str| call_requires(is_spawnable, (asked,)),
        ensures
            final(self).wf(),
            exists|verdicts: Map<Seq<char>, bool>, routed: Seq<Seq<char>>|
                {
                    &&& #[trigger] are_answers(is_spawnable, old(self)@, verdicts)
                    &&& final(self)@ == all_surviving(old(self)@, verdicts)
                    &&& #[trigger] routed.no_duplicates()
                    &&& forall|text: Seq<char>| #[trigger]
                        routed.contains(text) <==> is_retired_routed(old(self)@, verdicts, text)
                    &&& texts(retired@) == routed + old(self).names().filter(
                        |name: Seq<char>| is_retired(old(self)@, verdicts, name),
                    )
                },
    {
        let ghost before = self@;
        let ghost names = self.names();
        let mut verdicts: Table<String, bool> = Table::new();
        let mut i: usize = 0;
        proof {
            self.origins.lemma_keys();
        }
        while i < self.origins.len()
            invariant
                self.wf(),
                self@ == before,
                names == self.origins.keys(),
                verdicts.wf(),
                i <= names.len(),
                forall|name: Seq<char>| #[trigger]
                    before.contains_key(name) <==> names.contains(name),
                forall|asked: &str| call_requires(is_spawnable, (asked,)),
                forall|server: Seq<char>| #[trigger]
                    verdicts@.contains_key(server) <==> exists|j: int|
                        0 <= j < i && concerns(before[#[trigger] names[j]], server),
                forall|server: Seq<char>| #[trigger]
                    verdicts@.contains_key(server) ==> exists|asked: &str|
                        asked@ == server && #[trigger] call_ensures(
                            is_spawnable,
                            (asked,),
                            verdicts@[server],
                        ),
            decreases names.len() - i,
        {
            let ghost asked_before = verdicts@;
            proof {
                self.origins.lemma_keys();
            }
            Self::ask_for_name(&is_spawnable, &mut verdicts, self.origins.value_at(i));
            i += 1;
            assert forall|server: Seq<char>| #[trigger]
                verdicts@.contains_key(server) <==> exists|j: int|
                    0 <= j < i && concerns(before[#[trigger] names[j]], server) by {
                assert(before[names[i as int - 1]] == self.origins@[names[i as int - 1]]@);
                assert(verdicts@.contains_key(server) <==> asked_before.contains_key(server)
                    || concerns(before[names[i as int - 1]], server));
            }
        }
        assert(are_answers(is_spawnable, before, verdicts@)) by {
            assert forall|server: Seq<char>| #[trigger]
                verdicts@.contains_key(server) <==> is_concerned(before, server) by {
                if is_concerned(before, server) {
                    let name = choose|name: Seq<char>| #[trigger]
                        before.contains_key(name) && concerns(before[name], server);
                    assert(names.contains(name));
                    let j = choose|j: int| 0 <= j < names.len() && names[j] == name;
                    assert(concerns(before[names[j]], server));
                }
                if verdicts@.contains_key(server) {
                    let j = choose|j: int|
                        0 <= j < names.len() && concerns(before[#[trigger] names[j]], server);
                    assert(names.contains(names[j]));
                    assert(before.contains_key(names[j]));
                }
            }
        }
        let (mut routed, mut raw) = self.retire_by(&verdicts);
        let ghost said = texts(routed@);
        proof {
            assert(texts(routed@ + raw@) =~= texts(routed@) + texts(raw@));
        }
        routed.append(&mut raw);
        assert(said.no_duplicates());
        routed
    }
}

} // verus!

//! The mathematical model of advertised command names, and the laws that every
//! change to them keeps.

use crate::command_route::{
    RouteView, encoded, encoded_is_injective, encoded_is_longer, is_routed,
};
use crate::connection_key::{KeyView, other_than};
use crate::seqs::{
    lemma_filter_keeps_all, lemma_filter_members, lemma_filter_no_duplicates, lemma_push_contains,
};
use vstd::prelude::*;

verus! {

/// The mathematical content of what is known about one command name.
pub struct OriginsView {
    /// The servers that advertised the name.
    pub servers: Set<Seq<char>>,
    /// The connections that can be brought back from the name alone, in the
    /// order in which they first advertised it.
    pub reconnectable: Seq<KeyView>,
    /// The connections whose routed form of the name the editor was asked to
    /// hold.
    pub encoded: Set<KeyView>,
    /// Whether the editor holds the raw name.
    pub registered: bool,
}

/// What is known about a name that no server has advertised.
pub open spec fn nothing_known() -> OriginsView {
    OriginsView {
        servers: Set::empty(),
        reconnectable: Seq::empty(),
        encoded: Set::empty(),
        registered: false,
    }
}

/// What is known of a name, where something is known.
pub open spec fn known_of(
    origins: Map<Seq<char>, OriginsView>,
    name: Seq<char>,
) -> OriginsView {
    if origins.contains_key(name) {
        origins[name]
    } else {
        nothing_known()
    }
}

/// Whether the editor was asked to hold `text` as the routed name of some
/// command on some connection.
pub open spec fn held_as_routed(origins: Map<Seq<char>, OriginsView>, text: Seq<char>) -> bool {
    exists|route: RouteView|
        text == #[trigger] encoded(route.key, route.command) && origins.contains_key(route.command)
            && origins[route.command].encoded.contains(route.key)
}

/// What is known of a name once the connection `key` no longer advertises it.
///
/// The server stays an advertiser as long as another connection of it does.
pub open spec fn withdrawn(known: OriginsView, key: KeyView) -> OriginsView {
    let encoded = known.encoded.remove(key);
    let servers = if exists|other: KeyView|
        #[trigger] encoded.contains(other) && other.server == key.server {
        known.servers
    } else {
        known.servers.remove(key.server)
    };
    OriginsView {
        servers,
        reconnectable: known.reconnectable.filter(other_than(key)),
        encoded,
        registered: known.registered && !(servers =~= Set::<Seq<char>>::empty()),
    }
}

/// What is known once `key` advertises exactly `commands`, before the commands
/// themselves are recorded.
pub open spec fn reconciled(
    origins: Map<Seq<char>, OriginsView>,
    key: KeyView,
    commands: Seq<Seq<char>>,
) -> Map<Seq<char>, OriginsView> {
    Map::new(
        |name: Seq<char>| origins.contains_key(name),
        |name: Seq<char>|
            if commands.contains(name) {
                origins[name]
            } else {
                withdrawn(origins[name], key)
            },
    )
}

/// Whether a name loses its last advertiser, and the editor's registration with
/// it, once `key` advertises exactly `commands`.
pub open spec fn is_orphaned(
    origins: Map<Seq<char>, OriginsView>,
    key: KeyView,
    commands: Seq<Seq<char>>,
    name: Seq<char>,
) -> bool {
    !commands.contains(name) && origins[name].registered && !withdrawn(origins[name], key).registered
}

/// Whether the routed form of a name on `key` goes once `key` advertises
/// exactly `commands`.
pub open spec fn loses_routed(
    origins: Map<Seq<char>, OriginsView>,
    key: KeyView,
    commands: Seq<Seq<char>>,
    name: Seq<char>,
) -> bool {
    !commands.contains(name) && origins[name].encoded.contains(key)
}

/// Those of some known names that are orphaned once `key` advertises exactly
/// `commands`.
pub open spec fn orphaned_names(
    names: Seq<Seq<char>>,
    origins: Map<Seq<char>, OriginsView>,
    key: KeyView,
    commands: Seq<Seq<char>>,
) -> Seq<Seq<char>> {
    names.filter(|name: Seq<char>| is_orphaned(origins, key, commands, name))
}

/// The routed forms on `key` of those of some known names that lose it once `key`
/// advertises exactly `commands`.
pub open spec fn retired_routes(
    names: Seq<Seq<char>>,
    origins: Map<Seq<char>, OriginsView>,
    key: KeyView,
    commands: Seq<Seq<char>>,
) -> Seq<Seq<char>> {
    names.filter(|name: Seq<char>| loses_routed(origins, key, commands, name)).map_values(
        |name: Seq<char>| encoded(key, name),
    )
}

/// What is known of a name once `key` advertises it. The raw name is announced
/// unless its text is withheld.
pub open spec fn claimed(known: OriginsView, key: KeyView, withheld: bool) -> OriginsView {
    OriginsView {
        servers: known.servers.insert(key.server),
        reconnectable: if key.root is ClientFallback && !known.reconnectable.contains(key) {
            known.reconnectable.push(key)
        } else {
            known.reconnectable
        },
        encoded: known.encoded.insert(key),
        registered: known.registered || !withheld,
    }
}

/// How far the recording of an advertisement has come.
pub struct Recording {
    pub origins: Map<Seq<char>, OriginsView>,
    /// The raw names that the editor is to be told about.
    pub newly_advertised: Seq<Seq<char>>,
    /// The routed names that the editor is to be told about.
    pub newly_encoded: Seq<Seq<char>>,
}

/// Records one more advertised command.
///
/// A text that is claimed by the other kind of name already is not announced.
pub open spec fn record_one(so_far: Recording, key: KeyView, command: Seq<char>) -> Recording {
    let known = known_of(so_far.origins, command);
    let withheld = held_as_routed(so_far.origins, command);
    Recording {
        origins: so_far.origins.insert(command, claimed(known, key, withheld)),
        newly_advertised: if !known.registered && !withheld {
            so_far.newly_advertised.push(command)
        } else {
            so_far.newly_advertised
        },
        newly_encoded: if !known.encoded.contains(key) && !so_far.origins.contains_key(
            encoded(key, command),
        ) {
            so_far.newly_encoded.push(encoded(key, command))
        } else {
            so_far.newly_encoded
        },
    }
}

/// Records advertised commands one after the other.
pub open spec fn record_all(
    start: Recording,
    key: KeyView,
    commands: Seq<Seq<char>>,
) -> Recording
    decreases commands.len(),
{
    if commands.len() == 0 {
        start
    } else {
        record_one(record_all(start, key, commands.drop_last()), key, commands.last())
    }
}

/// What `register` leaves behind: the reconciled knowledge, with the advertised
/// commands recorded in their order.
pub open spec fn registered_with(
    origins: Map<Seq<char>, OriginsView>,
    key: KeyView,
    commands: Seq<Seq<char>>,
) -> Recording {
    record_all(
        Recording {
            origins: reconciled(origins, key, commands),
            newly_advertised: Seq::empty(),
            newly_encoded: Seq::empty(),
        },
        key,
        commands,
    )
}

/// What is known once the editor is taken to hold neither the raw names in
/// `raw` nor the routed names in `routed`.
pub open spec fn taken_back(
    origins: Map<Seq<char>, OriginsView>,
    raw: Seq<Seq<char>>,
    routed: Seq<Seq<char>>,
) -> Map<Seq<char>, OriginsView> {
    Map::new(
        |name: Seq<char>| origins.contains_key(name),
        |name: Seq<char>|
            OriginsView {
                encoded: Set::new(
                    |key: KeyView|
                        origins[name].encoded.contains(key) && !routed.contains(encoded(key, name)),
                ),
                registered: origins[name].registered && !raw.contains(name),
                ..origins[name]
            },
    )
}

/// Whether a server is among the advertisers of some name, or has a connection
/// whose routed name the editor was asked to hold.
pub open spec fn is_concerned(origins: Map<Seq<char>, OriginsView>, server: Seq<char>) -> bool {
    exists|name: Seq<char>| #[trigger]
        origins.contains_key(name) && concerns(origins[name], server)
}

/// Whether a name concerns a server.
pub open spec fn concerns(known: OriginsView, server: Seq<char>) -> bool {
    known.servers.contains(server) || exists|key: KeyView|
        #[trigger] known.encoded.contains(key) && key.server == server
}

/// Whether a server was found able to be started.
pub open spec fn can_start(verdicts: Map<Seq<char>, bool>, server: Seq<char>) -> bool {
    verdicts.contains_key(server) && verdicts[server]
}

/// What is known of a name once the servers that cannot be started are gone.
///
/// Each routed name goes with its own server. The raw name stays registered as
/// long as one of its advertisers can be started, or when it has none at all.
pub open spec fn surviving(known: OriginsView, verdicts: Map<Seq<char>, bool>) -> OriginsView {
    OriginsView {
        encoded: Set::new(
            |key: KeyView| known.encoded.contains(key) && can_start(verdicts, key.server),
        ),
        registered: known.registered && (known.servers =~= Set::<Seq<char>>::empty() || exists|
            server: Seq<char>,
        |
            #[trigger] known.servers.contains(server) && can_start(verdicts, server)),
        ..known
    }
}

/// Whether the registration of a raw name ends with the servers that cannot be
/// started.
pub open spec fn is_retired(
    origins: Map<Seq<char>, OriginsView>,
    verdicts: Map<Seq<char>, bool>,
    name: Seq<char>,
) -> bool {
    origins[name].registered && !surviving(origins[name], verdicts).registered
}

/// Whether a text is a routed name that ends with the servers that cannot be
/// started.
pub open spec fn is_retired_routed(
    origins: Map<Seq<char>, OriginsView>,
    verdicts: Map<Seq<char>, bool>,
    text: Seq<char>,
) -> bool {
    exists|route: RouteView|
        text == #[trigger] encoded(route.key, route.command) && origins.contains_key(route.command)
            && origins[route.command].encoded.contains(route.key) && !can_start(
            verdicts,
            route.key.server,
        )
}

/// Everything known, with each name as it survives.
pub open spec fn all_surviving(
    origins: Map<Seq<char>, OriginsView>,
    verdicts: Map<Seq<char>, bool>,
) -> Map<Seq<char>, OriginsView> {
    Map::new(
        |name: Seq<char>| origins.contains_key(name),
        |name: Seq<char>| surviving(origins[name], verdicts),
    )
}

/// Whether the verdicts are the answers of `is_spawnable`, one for each server
/// that is concerned.
pub open spec fn are_answers<F: Fn(&str) -> bool>(
    is_spawnable: F,
    origins: Map<Seq<char>, OriginsView>,
    verdicts: Map<Seq<char>, bool>,
) -> bool {
    &&& forall|server: Seq<char>| #[trigger]
        verdicts.contains_key(server) <==> is_concerned(origins, server)
    &&& forall|server: Seq<char>| #[trigger]
        verdicts.contains_key(server) ==> exists|asked: &str|
            asked@ == server && #[trigger] call_ensures(is_spawnable, (asked,), verdicts[server])
}

/// Whether a text is a routed name of one of the given commands that ends with
/// the servers that cannot be started.
pub open spec fn ends_among(
    origins: Map<Seq<char>, OriginsView>,
    verdicts: Map<Seq<char>, bool>,
    names: Seq<Seq<char>>,
    text: Seq<char>,
) -> bool {
    exists|route: RouteView|
        text == #[trigger] encoded(route.key, route.command) && names.contains(route.command)
            && origins[route.command].encoded.contains(route.key) && !can_start(
            verdicts,
            route.key.server,
        )
}

/// The routed names that end, with one more command.
pub proof fn lemma_retired_routed_step(
    origins: Map<Seq<char>, OriginsView>,
    verdicts: Map<Seq<char>, bool>,
    seen: Seq<Seq<char>>,
    name: Seq<char>,
    keys: Seq<KeyView>,
    before: Seq<Seq<char>>,
    after: Seq<Seq<char>>,
)
    requires
        !seen.contains(name),
        keys.no_duplicates(),
        forall|key: KeyView| origins[name].encoded.contains(key) <==> #[trigger] keys.contains(key),
        before.no_duplicates(),
        forall|text: Seq<char>| #[trigger]
            before.contains(text) <==> ends_among(origins, verdicts, seen, text),
        after == before + keys.filter(|key: KeyView| !can_start(verdicts, key.server)).map_values(
            |key: KeyView| encoded(key, name),
        ),
    ensures
        after.no_duplicates(),
        forall|text: Seq<char>| #[trigger]
            after.contains(text) <==> ends_among(origins, verdicts, seen.push(name), text),
{
    let dead = |key: KeyView| !can_start(verdicts, key.server);
    let route = |key: KeyView| encoded(key, name);
    let gone = keys.filter(dead);
    let added = gone.map_values(route);
    lemma_filter_members(keys, dead);
    lemma_filter_no_duplicates(keys, dead);
    assert forall|i: int, j: int| 0 <= i < j < added.len() implies added[i] != added[j] by {
        if added[i] == added[j] {
            encoded_is_injective(
                RouteView { key: gone[i], command: name },
                RouteView { key: gone[j], command: name },
            );
        }
    }
    assert forall|i: int, j: int| 0 <= i < before.len() && 0 <= j < added.len() implies before[i]
        != added[j] by {
        if before[i] == added[j] {
            assert(before.contains(before[i]));
            let other = choose|other: RouteView|
                before[i] == #[trigger] encoded(other.key, other.command) && seen.contains(
                    other.command,
                ) && origins[other.command].encoded.contains(other.key) && !can_start(
                    verdicts,
                    other.key.server,
                );
            encoded_is_injective(other, RouteView { key: gone[j], command: name });
        }
    }
    assert forall|text: Seq<char>| #[trigger] after.contains(text) implies ends_among(
        origins,
        verdicts,
        seen.push(name),
        text,
    ) by {
        let j = choose|j: int| 0 <= j < after.len() && after[j] == text;
        assert(seen.push(name)[seen.len() as int] == name);
        if j < before.len() {
            assert(before[j] == text);
            assert(before.contains(text));
            let other = choose|other: RouteView|
                text == #[trigger] encoded(other.key, other.command) && seen.contains(
                    other.command,
                ) && origins[other.command].encoded.contains(other.key) && !can_start(
                    verdicts,
                    other.key.server,
                );
            let k = choose|k: int| 0 <= k < seen.len() && seen[k] == other.command;
            assert(seen.push(name)[k] == other.command);
        } else {
            let key = gone[j - before.len()];
            assert(gone.contains(key));
            assert(keys.contains(key) && dead(key));
            let other = RouteView { key, command: name };
            assert(text == encoded(other.key, other.command));
        }
    }
    assert forall|text: Seq<char>| ends_among(
        origins,
        verdicts,
        seen.push(name),
        text,
    ) implies #[trigger] after.contains(text) by {
        let other = choose|other: RouteView|
            text == #[trigger] encoded(other.key, other.command) && seen.push(name).contains(
                other.command,
            ) && origins[other.command].encoded.contains(other.key) && !can_start(
                verdicts,
                other.key.server,
            );
        if other.command == name {
            assert(keys.contains(other.key) && dead(other.key));
            assert(gone.contains(other.key));
            let k = choose|k: int| 0 <= k < gone.len() && gone[k] == other.key;
            assert(after[before.len() + k] == added[k]);
        } else {
            let k = choose|k: int|
                0 <= k < seen.push(name).len() && seen.push(name)[k] == other.command;
            assert(seen[k] == other.command);
            assert(seen.contains(other.command));
            assert(before.contains(text));
            let m = choose|m: int| 0 <= m < before.len() && before[m] == text;
            assert(after[m] == text);
        }
    }
}

/// A name that was known stays known, whatever is registered, taken back or
/// retired, and every advertised name becomes known.
pub proof fn names_stay_known(
    origins: Map<Seq<char>, OriginsView>,
    key: KeyView,
    commands: Seq<Seq<char>>,
    raw: Seq<Seq<char>>,
    routed: Seq<Seq<char>>,
    verdicts: Map<Seq<char>, bool>,
)
    ensures
        forall|name: Seq<char>| #[trigger]
            registered_with(origins, key, commands).origins.contains_key(name)
                <==> origins.contains_key(name) || commands.contains(name),
        taken_back(origins, raw, routed).dom() == origins.dom(),
        all_surviving(origins, verdicts).dom() == origins.dom(),
{
    let start = Recording {
        origins: reconciled(origins, key, commands),
        newly_advertised: Seq::empty(),
        newly_encoded: Seq::empty(),
    };
    lemma_recorded_names(start, key, commands);
    assert(taken_back(origins, raw, routed).dom() =~= origins.dom());
    assert(all_surviving(origins, verdicts).dom() =~= origins.dom());
}

proof fn lemma_recorded_names(start: Recording, key: KeyView, commands: Seq<Seq<char>>)
    ensures
        forall|name: Seq<char>| #[trigger]
            record_all(start, key, commands).origins.contains_key(name)
                <==> start.origins.contains_key(name) || commands.contains(name),
    decreases commands.len(),
{
    if commands.len() > 0 {
        lemma_recorded_names(start, key, commands.drop_last());
        assert(commands =~= commands.drop_last().push(commands.last()));
        assert forall|name: Seq<char>| #[trigger]
            record_all(start, key, commands).origins.contains_key(name)
                <==> start.origins.contains_key(name) || commands.contains(name) by {
            lemma_push_contains(commands.drop_last(), commands.last(), name);
            assert(record_all(start, key, commands.drop_last()).origins.contains_key(name)
                <==> start.origins.contains_key(name) || commands.drop_last().contains(name));
        }
    }
}

/// What holds at every point of a recording: the announced names are held now,
/// and no text was announced twice.
spec fn announcements_hold(start: Recording, key: KeyView, now: Recording) -> bool {
    &&& forall|name: Seq<char>| #[trigger]
        start.origins.contains_key(name) ==> now.origins.contains_key(name)
    &&& forall|name: Seq<char>, other: KeyView|
        #![trigger now.origins[name].encoded.contains(other)]
        #![trigger start.origins[name].encoded.contains(other)]
        start.origins.contains_key(name) && start.origins[name].encoded.contains(other)
            ==> now.origins[name].encoded.contains(other)
    &&& forall|name: Seq<char>|
        #![trigger now.origins[name]]
        #![trigger start.origins[name]]
        start.origins.contains_key(name) && start.origins[name].registered
            ==> now.origins[name].registered
    &&& forall|text: Seq<char>| #[trigger]
        now.newly_advertised.contains(text) ==> now.origins.contains_key(text)
            && now.origins[text].registered && !known_of(start.origins, text).registered
            && !held_as_routed(start.origins, text)
    &&& forall|text: Seq<char>| #[trigger]
        now.newly_encoded.contains(text) ==> held_as_routed(now.origins, text)
            && !start.origins.contains_key(text) && exists|command: Seq<char>|
            text == #[trigger] encoded(key, command) && now.origins.contains_key(command)
                && now.origins[command].encoded.contains(key)
    &&& now.newly_advertised.no_duplicates()
    &&& now.newly_encoded.no_duplicates()
    &&& forall|text: Seq<char>|
        !(#[trigger] now.newly_advertised.contains(text) && #[trigger] now.newly_encoded.contains(
            text,
        ))
}

proof fn lemma_push_no_duplicates<A>(items: Seq<A>, last: A)
    requires
        items.no_duplicates(),
        !items.contains(last),
    ensures
        items.push(last).no_duplicates(),
{
    let longer = items.push(last);
    assert forall|i: int, j: int| 0 <= i < j < longer.len() implies longer[i] != longer[j] by {
        if j == items.len() {
            assert(items.contains(items[i]));
        }
    }
}

proof fn lemma_announcements_hold(start: Recording, key: KeyView, commands: Seq<Seq<char>>)
    requires
        start.newly_advertised == Seq::<Seq<char>>::empty(),
        start.newly_encoded == Seq::<Seq<char>>::empty(),
    ensures
        announcements_hold(start, key, record_all(start, key, commands)),
    decreases commands.len(),
{
    if commands.len() > 0 {
        lemma_announcements_hold(start, key, commands.drop_last());
        lemma_announcement_step(
            start,
            key,
            record_all(start, key, commands.drop_last()),
            commands.last(),
        );
    }
}

proof fn lemma_held_stays(
    before: Map<Seq<char>, OriginsView>,
    after: Map<Seq<char>, OriginsView>,
    text: Seq<char>,
)
    requires
        held_as_routed(before, text),
        forall|name: Seq<char>| #[trigger] before.contains_key(name) ==> after.contains_key(name),
        forall|name: Seq<char>, other: KeyView| #[trigger]
            before[name].encoded.contains(other) && before.contains_key(name)
                ==> after[name].encoded.contains(other),
    ensures
        held_as_routed(after, text),
{
    let route = choose|route: RouteView|
        text == #[trigger] encoded(route.key, route.command) && before.contains_key(route.command)
            && before[route.command].encoded.contains(route.key);
    assert(after[route.command].encoded.contains(route.key));
}

proof fn lemma_announcement_step(
    start: Recording,
    key: KeyView,
    before: Recording,
    command: Seq<char>,
)
    requires
        announcements_hold(start, key, before),
    ensures
        announcements_hold(start, key, record_one(before, key, command)),
{
    let after = record_one(before, key, command);
    let known = known_of(before.origins, command);
    let text = encoded(key, command);
    let announce_raw = !known.registered && !held_as_routed(before.origins, command);
    let announce_routed = !known.encoded.contains(key) && !before.origins.contains_key(text);
    assert forall|name: Seq<char>| #[trigger] before.origins.contains_key(
        name,
    ) implies after.origins.contains_key(name) by {}
    assert forall|name: Seq<char>, other: KeyView| #[trigger] before.origins[name].encoded.contains(
        other,
    ) && before.origins.contains_key(name) implies after.origins[name].encoded.contains(other) by {}
    encoded_is_longer(key, command);
    assert forall|name: Seq<char>, other: KeyView|
        #![trigger after.origins[name].encoded.contains(other)]
        #![trigger start.origins[name].encoded.contains(other)]
        start.origins.contains_key(name) && start.origins[name].encoded.contains(
            other,
        ) implies after.origins[name].encoded.contains(other) by {
        assert(before.origins[name].encoded.contains(other));
    }
    assert(after.newly_advertised.no_duplicates()) by {
        if announce_raw {
            assert(!before.newly_advertised.contains(command));
            lemma_push_no_duplicates(before.newly_advertised, command);
        }
    }
    assert(after.newly_encoded.no_duplicates()) by {
        if announce_routed {
            if before.newly_encoded.contains(text) {
                let other = choose|other: Seq<char>|
                    text == #[trigger] encoded(key, other) && before.origins.contains_key(other)
                        && before.origins[other].encoded.contains(key);
                encoded_is_injective(
                    RouteView { key, command: other },
                    RouteView { key, command },
                );
            }
            lemma_push_no_duplicates(before.newly_encoded, text);
        }
    }
    assert forall|said: Seq<char>| #[trigger] after.newly_advertised.contains(
        said,
    ) implies after.origins.contains_key(said) && after.origins[said].registered && !known_of(
        start.origins,
        said,
    ).registered && !held_as_routed(start.origins, said) by {
        if announce_raw {
            lemma_push_contains(before.newly_advertised, command, said);
        }
        if before.newly_advertised.contains(said) {
            assert(before.origins.contains_key(said));
        } else {
            assert(said == command);
            if held_as_routed(start.origins, said) {
                lemma_held_stays(start.origins, before.origins, said);
            }
            assert(start.origins.contains_key(said) ==> start.origins[said].registered
                ==> before.origins[said].registered);
        }
    }
    assert forall|said: Seq<char>| #[trigger] after.newly_encoded.contains(
        said,
    ) implies held_as_routed(after.origins, said) && !start.origins.contains_key(said) && exists|
        command: Seq<char>,
    |
        said == #[trigger] encoded(key, command) && after.origins.contains_key(command)
            && after.origins[command].encoded.contains(key) by {
        if announce_routed {
            lemma_push_contains(before.newly_encoded, text, said);
        }
        if before.newly_encoded.contains(said) {
            lemma_held_stays(before.origins, after.origins, said);
            let other = choose|other: Seq<char>|
                said == #[trigger] encoded(key, other) && before.origins.contains_key(other)
                    && before.origins[other].encoded.contains(key);
            assert(after.origins[other].encoded.contains(key));
        } else {
            assert(said == text);
            let route = RouteView { key, command };
            assert(said == encoded(route.key, route.command));
        }
    }
    assert forall|said: Seq<char>| !(#[trigger] after.newly_advertised.contains(said)
        && #[trigger] after.newly_encoded.contains(said)) by {
        if announce_raw {
            lemma_push_contains(before.newly_advertised, command, said);
        }
        if announce_routed {
            lemma_push_contains(before.newly_encoded, text, said);
        }
        if after.newly_advertised.contains(said) && after.newly_encoded.contains(said) {
            if said == command && announce_raw && before.newly_encoded.contains(said) {
                assert(held_as_routed(before.origins, command));
            }
            if said == text && announce_routed && before.newly_advertised.contains(said) {
                assert(before.origins.contains_key(text));
            }
        }
    }
}

/// No text is announced twice by one registration, and none is announced both
/// as a raw name and as a routed name. A routed name is not announced when its
/// text is a known raw name, and a raw name is announced only when the editor
/// does not hold it, and not when its text is a held routed name.
pub proof fn announced_texts_have_one_owner(
    origins: Map<Seq<char>, OriginsView>,
    key: KeyView,
    commands: Seq<Seq<char>>,
)
    ensures
        ({
            let outcome = registered_with(origins, key, commands);
            &&& outcome.newly_advertised.no_duplicates()
            &&& outcome.newly_encoded.no_duplicates()
            &&& forall|text: Seq<char>|
                !(#[trigger] outcome.newly_advertised.contains(text)
                    && #[trigger] outcome.newly_encoded.contains(text))
            &&& forall|text: Seq<char>| #[trigger]
                outcome.newly_advertised.contains(text) ==> !known_of(
                    reconciled(origins, key, commands),
                    text,
                ).registered && !held_as_routed(reconciled(origins, key, commands), text)
            &&& forall|text: Seq<char>| #[trigger]
                outcome.newly_encoded.contains(text) ==> !origins.contains_key(text)
        }),
{
    let start = Recording {
        origins: reconciled(origins, key, commands),
        newly_advertised: Seq::empty(),
        newly_encoded: Seq::empty(),
    };
    lemma_announcements_hold(start, key, commands);
}

/// What one registration announces is held afterwards.
pub proof fn announced_names_are_held(
    origins: Map<Seq<char>, OriginsView>,
    key: KeyView,
    commands: Seq<Seq<char>>,
)
    ensures
        ({
            let outcome = registered_with(origins, key, commands);
            &&& forall|text: Seq<char>| #[trigger]
                outcome.newly_advertised.contains(text) ==> outcome.origins.contains_key(text)
                    && outcome.origins[text].registered
            &&& forall|text: Seq<char>| #[trigger]
                outcome.newly_encoded.contains(text) ==> held_as_routed(outcome.origins, text)
        }),
{
    let start = Recording {
        origins: reconciled(origins, key, commands),
        newly_advertised: Seq::empty(),
        newly_encoded: Seq::empty(),
    };
    lemma_announcements_hold(start, key, commands);
}

/// An announcement that was taken back is open to be made again: the editor is
/// taken to hold none of its raw names, and none of its routed names for `key`.
pub proof fn taken_back_announcements_can_be_made_again(
    origins: Map<Seq<char>, OriginsView>,
    key: KeyView,
    commands: Seq<Seq<char>>,
)
    ensures
        ({
            let outcome = registered_with(origins, key, commands);
            let after = taken_back(
                outcome.origins,
                outcome.newly_advertised,
                outcome.newly_encoded,
            );
            &&& forall|text: Seq<char>| #[trigger]
                outcome.newly_advertised.contains(text) ==> after.contains_key(text)
                    && !after[text].registered
            &&& forall|text: Seq<char>| #[trigger]
                outcome.newly_encoded.contains(text) ==> !held_as_routed(after, text)
        }),
{
    announced_names_are_held(origins, key, commands);
    let outcome = registered_with(origins, key, commands);
    let after = taken_back(outcome.origins, outcome.newly_advertised, outcome.newly_encoded);
    assert forall|text: Seq<char>| #[trigger]
        outcome.newly_encoded.contains(text) implies !held_as_routed(after, text) by {
        if held_as_routed(after, text) {
            let route = choose|route: RouteView|
                text == #[trigger] encoded(route.key, route.command) && after.contains_key(
                    route.command,
                ) && after[route.command].encoded.contains(route.key);
            assert(false);
        }
    }
}

/// A name that the editor does not hold is announced by the next connection
/// that advertises it, unless its text is a held routed name. So a name comes
/// back after its registration was retired or taken back.
pub proof fn unheld_names_are_announced(
    origins: Map<Seq<char>, OriginsView>,
    key: KeyView,
    command: Seq<char>,
)
    requires
        !known_of(origins, command).registered,
        !held_as_routed(reconciled(origins, key, seq![command]), command),
    ensures
        registered_with(origins, key, seq![command]).newly_advertised == seq![command],
        registered_with(origins, key, seq![command]).origins[command].registered,
{
    let commands = seq![command];
    let start = Recording {
        origins: reconciled(origins, key, commands),
        newly_advertised: Seq::empty(),
        newly_encoded: Seq::empty(),
    };
    assert(commands.drop_last() =~= Seq::<Seq<char>>::empty());
    assert(record_all(start, key, commands.drop_last()) == start);
    assert(commands[0] == command);
    assert(commands.contains(command));
    assert(Seq::<Seq<char>>::empty().push(command) =~= commands);
}

/// What holds of a command that a connection advertised: it is known that the
/// connection backs it, and the editor holds the raw name, or its text is a held
/// routed name.
spec fn is_recorded(
    origins: Map<Seq<char>, OriginsView>,
    key: KeyView,
    command: Seq<char>,
) -> bool {
    &&& origins.contains_key(command)
    &&& origins[command].servers.contains(key.server)
    &&& key.root is ClientFallback ==> origins[command].reconnectable.contains(key)
    &&& origins[command].encoded.contains(key)
    &&& origins[command].registered || held_as_routed(origins, command)
}

/// All commands that a connection advertised are recorded.
spec fn all_recorded(
    origins: Map<Seq<char>, OriginsView>,
    key: KeyView,
    commands: Seq<Seq<char>>,
) -> bool {
    forall|command: Seq<char>| #[trigger]
        commands.contains(command) ==> is_recorded(origins, key, command)
}

proof fn lemma_recording_keeps_recorded(
    so_far: Recording,
    key: KeyView,
    commands: Seq<Seq<char>>,
    command: Seq<char>,
)
    requires
        all_recorded(so_far.origins, key, commands),
    ensures
        all_recorded(record_one(so_far, key, command).origins, key, commands),
{
    let after = record_one(so_far, key, command).origins;
    assert forall|other: Seq<char>| #[trigger] commands.contains(other) implies is_recorded(
        after,
        key,
        other,
    ) by {
        assert(is_recorded(so_far.origins, key, other));
        lemma_push_contains(so_far.origins[other].reconnectable, key, key);
        if held_as_routed(so_far.origins, other) {
            lemma_held_stays(so_far.origins, after, other);
        }
    }
}

proof fn lemma_all_recorded(start: Recording, key: KeyView, commands: Seq<Seq<char>>)
    ensures
        all_recorded(record_all(start, key, commands).origins, key, commands),
    decreases commands.len(),
{
    if commands.len() > 0 {
        let shorter = commands.drop_last();
        let last = commands.last();
        lemma_all_recorded(start, key, shorter);
        let before = record_all(start, key, shorter);
        lemma_recording_keeps_recorded(before, key, shorter, last);
        let after = record_all(start, key, commands).origins;
        if held_as_routed(before.origins, last) {
            lemma_held_stays(before.origins, after, last);
        }
        lemma_push_contains(known_of(before.origins, last).reconnectable, key, key);
        assert(is_recorded(after, key, last));
        assert(commands =~= shorter.push(last));
        assert forall|command: Seq<char>| #[trigger]
            commands.contains(command) implies is_recorded(after, key, command) by {
            lemma_push_contains(shorter, last, command);
        }
    }
}

/// Recording leaves every name alone that is not advertised.
proof fn lemma_others_untouched(
    start: Recording,
    key: KeyView,
    done: Seq<Seq<char>>,
    name: Seq<char>,
)
    requires
        !done.contains(name),
    ensures
        record_all(start, key, done).origins.contains_key(name) == start.origins.contains_key(name),
        start.origins.contains_key(name) ==> record_all(start, key, done).origins[name]
            == start.origins[name],
    decreases done.len(),
{
    if done.len() > 0 {
        assert(done =~= done.drop_last().push(done.last()));
        lemma_push_contains(done.drop_last(), done.last(), name);
        lemma_others_untouched(start, key, done.drop_last(), name);
    }
}

/// Withdrawing twice is withdrawing once.
proof fn lemma_withdrawn_once(known: OriginsView, key: KeyView)
    ensures
        withdrawn(withdrawn(known, key), key) == withdrawn(known, key),
        !withdrawn(known, key).encoded.contains(key),
{
    let once = withdrawn(known, key);
    let twice = withdrawn(once, key);
    assert(once.encoded.remove(key) =~= once.encoded);
    assert(twice.encoded =~= once.encoded);
    assert(twice.servers =~= once.servers);
    lemma_filter_members(known.reconnectable, other_than(key));
    assert forall|i: int| 0 <= i < once.reconnectable.len() implies other_than(key)(
        #[trigger] once.reconnectable[i],
    ) by {
        assert(once.reconnectable.contains(once.reconnectable[i]));
    }
    lemma_filter_keeps_all(once.reconnectable, other_than(key));
}

/// A connection that advertised exactly these commands last has nothing to take
/// back when it advertises them once more.
proof fn lemma_nothing_to_reconcile(
    origins: Map<Seq<char>, OriginsView>,
    key: KeyView,
    commands: Seq<Seq<char>>,
    now: Map<Seq<char>, OriginsView>,
    names: Seq<Seq<char>>,
)
    requires
        forall|name: Seq<char>| #[trigger] names.contains(name) ==> now.contains_key(name),
        now.dom() == registered_with(origins, key, commands).origins.dom(),
        forall|name: Seq<char>|
            now.contains_key(name) && !commands.contains(name) ==> #[trigger] now[name]
                == registered_with(origins, key, commands).origins[name],
    ensures
        reconciled(now, key, commands) == now,
        orphaned_names(names, now, key, commands).len() == 0,
        retired_routes(names, now, key, commands).len() == 0,
{
    let start = Recording {
        origins: reconciled(origins, key, commands),
        newly_advertised: Seq::empty(),
        newly_encoded: Seq::empty(),
    };
    assert forall|name: Seq<char>|
        now.contains_key(name) && !commands.contains(name) implies #[trigger] withdrawn(
        now[name],
        key,
    ) == now[name] && !now[name].encoded.contains(key) by {
        lemma_others_untouched(start, key, commands, name);
        assert(registered_with(origins, key, commands).origins.contains_key(name));
        assert(start.origins.contains_key(name));
        lemma_withdrawn_once(origins[name], key);
    }
    assert(reconciled(now, key, commands) =~= now);
    let orphans = |name: Seq<char>| is_orphaned(now, key, commands, name);
    let unrouted = |name: Seq<char>| loses_routed(now, key, commands, name);
    lemma_filter_members(names, orphans);
    lemma_filter_members(names, unrouted);
    if names.filter(orphans).len() > 0 {
        let name = names.filter(orphans)[0];
        assert(names.filter(orphans).contains(name));
        assert(names.contains(name) && orphans(name));
        assert(withdrawn(now[name], key) == now[name]);
    }
    if names.filter(unrouted).len() > 0 {
        let name = names.filter(unrouted)[0];
        assert(names.filter(unrouted).contains(name));
        assert(names.contains(name) && unrouted(name));
        assert(withdrawn(now[name], key) == now[name]);
    }
}

proof fn lemma_nothing_recorded(
    start: Recording,
    key: KeyView,
    commands: Seq<Seq<char>>,
    done: Seq<Seq<char>>,
)
    requires
        all_recorded(start.origins, key, commands),
        forall|command: Seq<char>| #[trigger] done.contains(command) ==> commands.contains(command),
    ensures
        record_all(start, key, done) == start,
    decreases done.len(),
{
    if done.len() > 0 {
        let shorter = done.drop_last();
        let last = done.last();
        assert(done =~= shorter.push(last));
        assert forall|command: Seq<char>| #[trigger] shorter.contains(
            command,
        ) implies commands.contains(command) by {
            lemma_push_contains(shorter, last, command);
            assert(done.contains(command));
        }
        lemma_nothing_recorded(start, key, commands, shorter);
        assert(done.contains(last)) by {
            lemma_push_contains(shorter, last, last);
        }
        assert(commands.contains(last));
        assert(is_recorded(start.origins, key, last));
        let known = start.origins[last];
        let withheld = held_as_routed(start.origins, last);
        assert(claimed(known, key, withheld).servers =~= known.servers);
        assert(claimed(known, key, withheld).encoded =~= known.encoded);
        assert(claimed(known, key, withheld) == known);
        assert(start.origins.insert(last, known) =~= start.origins);
    }
}

/// A connection that advertises the same commands once more announces nothing,
/// withdraws nothing and changes nothing: the editor is never asked twice to hold
/// a name.
pub proof fn repeated_advertisements_are_silent(
    origins: Map<Seq<char>, OriginsView>,
    key: KeyView,
    commands: Seq<Seq<char>>,
    names: Seq<Seq<char>>,
)
    requires
        forall|name: Seq<char>| #[trigger]
            names.contains(name) ==> origins.contains_key(name) || commands.contains(name),
    ensures
        ({
            let once = registered_with(origins, key, commands).origins;
            let twice = registered_with(once, key, commands);
            &&& twice.newly_advertised.len() == 0
            &&& twice.newly_encoded.len() == 0
            &&& twice.origins == once
            &&& orphaned_names(names, once, key, commands).len() == 0
            &&& retired_routes(names, once, key, commands).len() == 0
        }),
{
    let start = Recording {
        origins: reconciled(origins, key, commands),
        newly_advertised: Seq::empty(),
        newly_encoded: Seq::empty(),
    };
    let once = registered_with(origins, key, commands).origins;
    lemma_all_recorded(start, key, commands);
    lemma_recorded_names(start, key, commands);
    lemma_nothing_to_reconcile(origins, key, commands, once, names);
    let again = Recording {
        origins: once,
        newly_advertised: Seq::empty(),
        newly_encoded: Seq::empty(),
    };
    lemma_nothing_recorded(again, key, commands, commands);
}

/// A connection that advertises nothing gives up every name that it backed: it is
/// listed nowhere any more, and nothing is announced.
pub proof fn an_empty_list_withdraws_everything(
    origins: Map<Seq<char>, OriginsView>,
    key: KeyView,
    name: Seq<char>,
)
    ensures
        ({
            let after = registered_with(origins, key, Seq::empty());
            &&& after.newly_advertised.len() == 0
            &&& after.newly_encoded.len() == 0
            &&& origins.contains_key(name) ==> after.origins[name] == withdrawn(origins[name], key)
            &&& !known_of(after.origins, name).encoded.contains(key)
            &&& !known_of(after.origins, name).reconnectable.contains(key)
        }),
{
    if origins.contains_key(name) {
        lemma_filter_members(origins[name].reconnectable, other_than(key));
    }
}

/// Whether no advertised text can be taken for another one: no command reads as a
/// routed name, and no routed name of a command on `key` is a known raw name.
pub open spec fn texts_are_apart(
    origins: Map<Seq<char>, OriginsView>,
    key: KeyView,
    commands: Seq<Seq<char>>,
) -> bool {
    forall|command: Seq<char>| #[trigger]
        commands.contains(command) ==> !is_routed(command) && !origins.contains_key(
            encoded(key, command),
        )
}

proof fn lemma_never_withheld(origins: Map<Seq<char>, OriginsView>, text: Seq<char>)
    requires
        !is_routed(text),
    ensures
        !held_as_routed(origins, text),
{
    if held_as_routed(origins, text) {
        let route = choose|route: RouteView|
            text == #[trigger] encoded(route.key, route.command) && origins.contains_key(
                route.command,
            ) && origins[route.command].encoded.contains(route.key);
        assert(is_routed(text));
    }
}

/// What a recording announces where no text can be taken for another one: each
/// command that was not held before, raw and routed apart.
proof fn lemma_news(start: Recording, key: KeyView, commands: Seq<Seq<char>>, name: Seq<char>)
    requires
        texts_are_apart(start.origins, key, commands),
        start.newly_advertised == Seq::<Seq<char>>::empty(),
        start.newly_encoded == Seq::<Seq<char>>::empty(),
    ensures
        ({
            let now = record_all(start, key, commands);
            let known = known_of(start.origins, name);
            &&& now.newly_advertised.contains(name) <==> commands.contains(name)
                && !known.registered
            &&& now.newly_encoded.contains(encoded(key, name)) <==> commands.contains(name)
                && !known.encoded.contains(key)
            &&& known_of(now.origins, name).registered <==> commands.contains(name)
                || known.registered
            &&& known_of(now.origins, name).encoded.contains(key) <==> commands.contains(name)
                || known.encoded.contains(key)
        }),
    decreases commands.len(),
{
    if commands.len() > 0 {
        let shorter = commands.drop_last();
        let last = commands.last();
        assert(commands =~= shorter.push(last));
        assert forall|command: Seq<char>| #[trigger] shorter.contains(
            command,
        ) implies !is_routed(command) && !start.origins.contains_key(encoded(key, command)) by {
            lemma_push_contains(shorter, last, command);
            assert(commands.contains(command));
        }
        lemma_push_contains(shorter, last, name);
        lemma_push_contains(shorter, last, last);
        assert(commands.contains(last));
        lemma_news(start, key, shorter, name);
        lemma_news(start, key, shorter, last);
        let before = record_all(start, key, shorter);
        lemma_never_withheld(before.origins, last);
        lemma_recorded_names(start, key, shorter);
        assert(!before.origins.contains_key(encoded(key, last))) by {
            if shorter.contains(encoded(key, last)) {
                lemma_push_contains(shorter, last, encoded(key, last));
                assert(commands.contains(encoded(key, last)));
                let route = RouteView { key, command: last };
                assert(encoded(key, last) == encoded(route.key, route.command));
            }
        }
        lemma_push_contains(before.newly_advertised, last, name);
        lemma_push_contains(before.newly_encoded, encoded(key, last), encoded(key, name));
        if encoded(key, name) == encoded(key, last) {
            encoded_is_injective(
                RouteView { key, command: name },
                RouteView { key, command: last },
            );
        }
    }
}

/// Two recordings of the same commands announce the same where the editor holds
/// the same of them.
proof fn lemma_same_news(one: Recording, two: Recording, key: KeyView, commands: Seq<Seq<char>>)
    requires
        texts_are_apart(one.origins, key, commands),
        texts_are_apart(two.origins, key, commands),
        one.newly_advertised == Seq::<Seq<char>>::empty(),
        one.newly_encoded == Seq::<Seq<char>>::empty(),
        two.newly_advertised == Seq::<Seq<char>>::empty(),
        two.newly_encoded == Seq::<Seq<char>>::empty(),
        forall|name: Seq<char>| #[trigger]
            commands.contains(name) ==> known_of(one.origins, name).registered == known_of(
                two.origins,
                name,
            ).registered && known_of(one.origins, name).encoded.contains(key) == known_of(
                two.origins,
                name,
            ).encoded.contains(key),
    ensures
        record_all(one, key, commands).newly_advertised == record_all(
            two,
            key,
            commands,
        ).newly_advertised,
        record_all(one, key, commands).newly_encoded == record_all(
            two,
            key,
            commands,
        ).newly_encoded,
    decreases commands.len(),
{
    if commands.len() > 0 {
        let shorter = commands.drop_last();
        let last = commands.last();
        assert(commands =~= shorter.push(last));
        assert forall|command: Seq<char>| #[trigger] shorter.contains(
            command,
        ) implies commands.contains(command) by {
            lemma_push_contains(shorter, last, command);
        }
        lemma_push_contains(shorter, last, last);
        assert(commands.contains(last));
        lemma_same_news(one, two, key, shorter);
        lemma_news(one, key, shorter, last);
        lemma_news(two, key, shorter, last);
        let before_one = record_all(one, key, shorter);
        let before_two = record_all(two, key, shorter);
        lemma_never_withheld(before_one.origins, last);
        lemma_never_withheld(before_two.origins, last);
        lemma_recorded_names(one, key, shorter);
        lemma_recorded_names(two, key, shorter);
        if shorter.contains(encoded(key, last)) {
            lemma_push_contains(shorter, last, encoded(key, last));
            assert(commands.contains(encoded(key, last)));
            let route = RouteView { key, command: last };
            assert(encoded(key, last) == encoded(route.key, route.command));
        }
    }
}

/// An advertisement whose announcement was taken back announces the same names
/// when it is made once more, and withdraws nothing. No text may be open to two
/// readings.
pub proof fn taken_back_announcements_are_repeated(
    origins: Map<Seq<char>, OriginsView>,
    key: KeyView,
    commands: Seq<Seq<char>>,
    names: Seq<Seq<char>>,
)
    requires
        texts_are_apart(origins, key, commands),
        forall|name: Seq<char>| #[trigger]
            names.contains(name) ==> origins.contains_key(name) || commands.contains(name),
    ensures
        ({
            let outcome = registered_with(origins, key, commands);
            let after = taken_back(
                outcome.origins,
                outcome.newly_advertised,
                outcome.newly_encoded,
            );
            let again = registered_with(after, key, commands);
            &&& again.newly_advertised == outcome.newly_advertised
            &&& again.newly_encoded == outcome.newly_encoded
            &&& orphaned_names(names, after, key, commands).len() == 0
            &&& retired_routes(names, after, key, commands).len() == 0
        }),
{
    let start = Recording {
        origins: reconciled(origins, key, commands),
        newly_advertised: Seq::empty(),
        newly_encoded: Seq::empty(),
    };
    let outcome = registered_with(origins, key, commands);
    let after = taken_back(outcome.origins, outcome.newly_advertised, outcome.newly_encoded);
    let again = Recording {
        origins: after,
        newly_advertised: Seq::empty(),
        newly_encoded: Seq::empty(),
    };
    assert(texts_are_apart(start.origins, key, commands));
    lemma_announcements_hold(start, key, commands);
    lemma_recorded_names(start, key, commands);
    assert(texts_are_apart(after, key, commands)) by {
        assert forall|command: Seq<char>| #[trigger] commands.contains(
            command,
        ) implies !after.contains_key(encoded(key, command)) by {
            let route = RouteView { key, command };
            assert(encoded(key, command) == encoded(route.key, route.command));
            assert(is_routed(encoded(key, command)));
            assert(!commands.contains(encoded(key, command)));
            assert(outcome.origins.contains_key(encoded(key, command))
                <==> start.origins.contains_key(encoded(key, command)));
        }
    }
    assert forall|name: Seq<char>| #[trigger] commands.contains(name) implies known_of(
        start.origins,
        name,
    ).registered == known_of(after, name).registered && known_of(
        start.origins,
        name,
    ).encoded.contains(key) == known_of(after, name).encoded.contains(key) by {
        lemma_news(start, key, commands, name);
        assert(outcome.origins.contains_key(name));
    }
    assert forall|name: Seq<char>|
        after.contains_key(name) && !commands.contains(name) implies #[trigger] after[name]
        == outcome.origins[name] by {
        lemma_news(start, key, commands, name);
        assert(!outcome.newly_advertised.contains(name));
        assert forall|other: KeyView| !outcome.newly_encoded.contains(
            #[trigger] encoded(other, name),
        ) by {
            if outcome.newly_encoded.contains(encoded(other, name)) {
                let command = choose|command: Seq<char>|
                    encoded(other, name) == #[trigger] encoded(key, command)
                        && outcome.origins.contains_key(command)
                        && outcome.origins[command].encoded.contains(key);
                encoded_is_injective(
                    RouteView { key: other, command: name },
                    RouteView { key, command },
                );
                assert(outcome.newly_encoded.contains(encoded(key, name)));
            }
        }
        assert(after[name].encoded =~= outcome.origins[name].encoded);
    }
    assert(after.dom() =~= outcome.origins.dom());
    lemma_nothing_to_reconcile(origins, key, commands, after, names);
    lemma_same_news(start, again, key, commands);
}

/// Retiring twice with the same verdicts retires nothing the second time.
pub proof fn retiring_is_done_once(
    origins: Map<Seq<char>, OriginsView>,
    verdicts: Map<Seq<char>, bool>,
)
    ensures
        ({
            let after = all_surviving(origins, verdicts);
            &&& all_surviving(after, verdicts) == after
            &&& forall|name: Seq<char>|
                after.contains_key(name) ==> !#[trigger] is_retired(after, verdicts, name)
            &&& forall|text: Seq<char>| !#[trigger] is_retired_routed(after, verdicts, text)
        }),
{
    let after = all_surviving(origins, verdicts);
    assert forall|name: Seq<char>| after.contains_key(name) implies #[trigger] surviving(
        after[name],
        verdicts,
    ) == after[name] by {
        assert(surviving(after[name], verdicts).encoded =~= after[name].encoded);
    }
    assert(all_surviving(after, verdicts) =~= after);
    assert forall|name: Seq<char>| after.contains_key(name) implies !#[trigger] is_retired(
        after,
        verdicts,
        name,
    ) by {
        assert(surviving(after[name], verdicts) == after[name]);
    }
}

/// While every advertiser can be started, nothing is retired.
pub proof fn startable_servers_keep_their_names(
    origins: Map<Seq<char>, OriginsView>,
    verdicts: Map<Seq<char>, bool>,
)
    requires
        forall|server: Seq<char>| is_concerned(origins, server) ==> #[trigger] can_start(
            verdicts,
            server,
        ),
    ensures
        all_surviving(origins, verdicts) == origins,
        forall|name: Seq<char>|
            origins.contains_key(name) ==> !#[trigger] is_retired(origins, verdicts, name),
        forall|text: Seq<char>| !#[trigger] is_retired_routed(origins, verdicts, text),
{
    assert forall|name: Seq<char>| origins.contains_key(name) implies #[trigger] surviving(
        origins[name],
        verdicts,
    ) == origins[name] by {
        assert forall|key: KeyView| origins[name].encoded.contains(key) implies can_start(
            verdicts,
            key.server,
        ) by {
            assert(concerns(origins[name], key.server));
            assert(is_concerned(origins, key.server));
        }
        assert(surviving(origins[name], verdicts).encoded =~= origins[name].encoded);
        if !(origins[name].servers =~= Set::<Seq<char>>::empty()) {
            let server = choose|server: Seq<char>| origins[name].servers.contains(server);
            assert(origins[name].servers.contains(server));
            assert(concerns(origins[name], server));
            assert(is_concerned(origins, server));
            assert(can_start(verdicts, server));
        }
    }
    assert(all_surviving(origins, verdicts) =~= origins);
    assert forall|text: Seq<char>| !#[trigger] is_retired_routed(origins, verdicts, text) by {
        if is_retired_routed(origins, verdicts, text) {
            let route = choose|route: RouteView|
                text == #[trigger] encoded(route.key, route.command) && origins.contains_key(
                    route.command,
                ) && origins[route.command].encoded.contains(route.key) && !can_start(
                    verdicts,
                    route.key.server,
                );
            assert(concerns(origins[route.command], route.key.server));
            assert(is_concerned(origins, route.key.server));
        }
    }
}

/// One connection's advertisement leaves what the editor holds for every other
/// connection alone.
pub proof fn advertising_spares_other_connections(
    origins: Map<Seq<char>, OriginsView>,
    key: KeyView,
    commands: Seq<Seq<char>>,
    other: KeyView,
    name: Seq<char>,
)
    requires
        other != key,
    ensures
        known_of(registered_with(origins, key, commands).origins, name).encoded.contains(other)
            == known_of(origins, name).encoded.contains(other),
        known_of(
            registered_with(origins, key, commands).origins,
            name,
        ).reconnectable.contains(other) == known_of(origins, name).reconnectable.contains(other),
{
    let start = Recording {
        origins: reconciled(origins, key, commands),
        newly_advertised: Seq::empty(),
        newly_encoded: Seq::empty(),
    };
    lemma_recording_spares_others(start, key, commands, other, name);
    if origins.contains_key(name) {
        lemma_filter_members(origins[name].reconnectable, other_than(key));
    }
}

proof fn lemma_recording_spares_others(
    start: Recording,
    key: KeyView,
    commands: Seq<Seq<char>>,
    other: KeyView,
    name: Seq<char>,
)
    requires
        other != key,
    ensures
        known_of(record_all(start, key, commands).origins, name).encoded.contains(other)
            == known_of(start.origins, name).encoded.contains(other),
        known_of(record_all(start, key, commands).origins, name).reconnectable.contains(other)
            == known_of(start.origins, name).reconnectable.contains(other),
    decreases commands.len(),
{
    if commands.len() > 0 {
        lemma_recording_spares_others(start, key, commands.drop_last(), other, name);
        let before = record_all(start, key, commands.drop_last());
        lemma_push_contains(known_of(before.origins, name).reconnectable, key, other);
    }
}

/// The connections that can be brought back from a name alone are all on the
/// editor's own root, and none is named twice.
pub open spec fn only_fallbacks_reconnect(origins: Map<Seq<char>, OriginsView>) -> bool {
    forall|name: Seq<char>| #[trigger]
        origins.contains_key(name) ==> origins[name].reconnectable.no_duplicates() && forall|
            key: KeyView,
        | #[trigger]
            origins[name].reconnectable.contains(key) ==> key.root is ClientFallback
}

/// Every raw name that the editor holds has an advertiser.
pub open spec fn announced_names_have_advertisers(origins: Map<Seq<char>, OriginsView>) -> bool {
    forall|name: Seq<char>| #[trigger]
        origins.contains_key(name) && origins[name].registered ==> !(origins[name].servers
            =~= Set::<Seq<char>>::empty())
}

/// What always holds of what is known about command names.
pub open spec fn origins_are_sound(origins: Map<Seq<char>, OriginsView>) -> bool {
    only_fallbacks_reconnect(origins) && announced_names_have_advertisers(origins)
}

/// Reconciling keeps what is known sound.
pub proof fn lemma_reconciling_keeps_sound(
    origins: Map<Seq<char>, OriginsView>,
    key: KeyView,
    commands: Seq<Seq<char>>,
)
    requires
        origins_are_sound(origins),
    ensures
        origins_are_sound(reconciled(origins, key, commands)),
{
    let after = reconciled(origins, key, commands);
    let apart = other_than(key);
    assert forall|name: Seq<char>| #[trigger]
        after.contains_key(name) implies after[name].reconnectable.no_duplicates() && forall|
        k: KeyView,
    | #[trigger]
        after[name].reconnectable.contains(k) ==> k.root is ClientFallback by {
        assert(origins.contains_key(name));
        lemma_filter_members(origins[name].reconnectable, apart);
        lemma_filter_no_duplicates(origins[name].reconnectable, apart);
    }
    assert forall|name: Seq<char>| #[trigger]
        after.contains_key(name) && after[name].registered implies !(after[name].servers
        =~= Set::<Seq<char>>::empty()) by {
        assert(origins.contains_key(name));
    }
}

/// Recording a command keeps what is known sound.
pub proof fn lemma_recording_keeps_sound(so_far: Recording, key: KeyView, command: Seq<char>)
    requires
        origins_are_sound(so_far.origins),
    ensures
        origins_are_sound(record_one(so_far, key, command).origins),
{
    let before = so_far.origins;
    let after = record_one(so_far, key, command).origins;
    assert forall|name: Seq<char>| #[trigger]
        after.contains_key(name) implies after[name].reconnectable.no_duplicates() && forall|
        k: KeyView,
    | #[trigger]
        after[name].reconnectable.contains(k) ==> k.root is ClientFallback by {
        let list = known_of(before, name).reconnectable;
        if before.contains_key(name) {
            assert(list.no_duplicates());
        }
        if name == command && key.root is ClientFallback && !list.contains(key) {
            lemma_push_no_duplicates(list, key);
            assert forall|k: KeyView| #[trigger]
                after[name].reconnectable.contains(k) implies k.root is ClientFallback by {
                lemma_push_contains(list, key, k);
            }
        }
    }
    assert forall|name: Seq<char>| #[trigger]
        after.contains_key(name) && after[name].registered implies !(after[name].servers
        =~= Set::<Seq<char>>::empty()) by {
        if name == command {
            assert(after[name].servers.contains(key.server));
        } else {
            assert(before.contains_key(name));
        }
    }
}

/// Taking announcements back keeps what is known sound.
pub proof fn lemma_taking_back_keeps_sound(
    origins: Map<Seq<char>, OriginsView>,
    raw: Seq<Seq<char>>,
    routed: Seq<Seq<char>>,
)
    requires
        origins_are_sound(origins),
    ensures
        origins_are_sound(taken_back(origins, raw, routed)),
{
    let after = taken_back(origins, raw, routed);
    assert forall|name: Seq<char>| #[trigger] after.contains_key(name) implies origins.contains_key(
        name,
    ) by {}
}

/// Retiring servers keeps what is known sound.
pub proof fn lemma_retiring_keeps_sound(
    origins: Map<Seq<char>, OriginsView>,
    verdicts: Map<Seq<char>, bool>,
)
    requires
        origins_are_sound(origins),
    ensures
        origins_are_sound(all_surviving(origins, verdicts)),
{
    let after = all_surviving(origins, verdicts);
    assert forall|name: Seq<char>| #[trigger] after.contains_key(name) implies origins.contains_key(
        name,
    ) by {}
}

/// Whatever happens, the reconnectable connections are all on the editor's own
/// root, and every raw name that the editor holds has an advertiser.
pub proof fn origins_stay_sound(
    origins: Map<Seq<char>, OriginsView>,
    key: KeyView,
    commands: Seq<Seq<char>>,
    raw: Seq<Seq<char>>,
    routed: Seq<Seq<char>>,
    verdicts: Map<Seq<char>, bool>,
)
    requires
        origins_are_sound(origins),
    ensures
        origins_are_sound(registered_with(origins, key, commands).origins),
        origins_are_sound(taken_back(origins, raw, routed)),
        origins_are_sound(all_surviving(origins, verdicts)),
{
    let start = Recording {
        origins: reconciled(origins, key, commands),
        newly_advertised: Seq::empty(),
        newly_encoded: Seq::empty(),
    };
    lemma_reconciling_keeps_sound(origins, key, commands);
    lemma_recording_all_keeps_sound(start, key, commands);
    lemma_taking_back_keeps_sound(origins, raw, routed);
    lemma_retiring_keeps_sound(origins, verdicts);
}

proof fn lemma_recording_all_keeps_sound(start: Recording, key: KeyView, commands: Seq<Seq<char>>)
    requires
        origins_are_sound(start.origins),
    ensures
        origins_are_sound(record_all(start, key, commands).origins),
    decreases commands.len(),
{
    if commands.len() > 0 {
        lemma_recording_all_keeps_sound(start, key, commands.drop_last());
        lemma_recording_keeps_sound(
            record_all(start, key, commands.drop_last()),
            key,
            commands.last(),
        );
    }
}

/// How the connections that can be brought back from a name follow what `key`
/// advertises: `key` is among them exactly while it advertises the name and is on
/// the editor's own root, it comes last when it is new and keeps its place
/// otherwise, and all others stay as they are.
pub open spec fn list_follows(
    before: Seq<KeyView>,
    after: Seq<KeyView>,
    key: KeyView,
    advertised: bool,
) -> bool {
    &&& after.contains(key) <==> advertised && key.root is ClientFallback
    &&& after.filter(other_than(key)) == before.filter(other_than(key))
    &&& after.contains(key) && !before.contains(key) ==> after == before.push(key)
    &&& advertised && before.contains(key) ==> after == before
    &&& !advertised ==> after == before.filter(other_than(key))
}

/// The connections that can be brought back from each name follow what a
/// connection advertises.
pub proof fn reconnectable_lists_follow(
    origins: Map<Seq<char>, OriginsView>,
    key: KeyView,
    commands: Seq<Seq<char>>,
    name: Seq<char>,
)
    requires
        origins_are_sound(origins),
    ensures
        list_follows(
            known_of(origins, name).reconnectable,
            known_of(registered_with(origins, key, commands).origins, name).reconnectable,
            key,
            commands.contains(name),
        ),
{
    let start = Recording {
        origins: reconciled(origins, key, commands),
        newly_advertised: Seq::empty(),
        newly_encoded: Seq::empty(),
    };
    let before = known_of(origins, name).reconnectable;
    let middle = known_of(start.origins, name).reconnectable;
    let after = known_of(record_all(start, key, commands).origins, name).reconnectable;
    let apart = other_than(key);
    lemma_recorded_list(start, key, commands, name);
    lemma_filter_members(before, apart);
    lemma_push_contains(before, key, key);
    if commands.contains(name) {
        assert(middle == before);
        if key.root is ClientFallback && !before.contains(key) {
            before.lemma_filter_push(key, apart);
        }
    } else {
        reveal(Seq::filter);
        if origins.contains_key(name) {
            assert(middle == before.filter(apart));
        } else {
            assert(middle =~= before.filter(apart));
        }
        assert forall|i: int| 0 <= i < middle.len() implies apart(#[trigger] middle[i]) by {
            assert(middle.contains(middle[i]));
        }
        lemma_filter_keeps_all(middle, apart);
    }
}

proof fn lemma_recorded_list(
    start: Recording,
    key: KeyView,
    commands: Seq<Seq<char>>,
    name: Seq<char>,
)
    ensures
        ({
            let before = known_of(start.origins, name).reconnectable;
            known_of(record_all(start, key, commands).origins, name).reconnectable == (
            if commands.contains(name) && key.root is ClientFallback && !before.contains(key) {
                before.push(key)
            } else {
                before
            })
        }),
    decreases commands.len(),
{
    if commands.len() > 0 {
        let before = known_of(start.origins, name).reconnectable;
        lemma_recorded_list(start, key, commands.drop_last(), name);
        assert(commands =~= commands.drop_last().push(commands.last()));
        lemma_push_contains(commands.drop_last(), commands.last(), name);
        lemma_push_contains(before, key, key);
    }
}

/// A command that a connection advertises is backed by it afterwards, with its server
/// among the advertisers, and the editor holds the name, or holds its text as a
/// routed name.
pub proof fn advertised_commands_are_backed(
    origins: Map<Seq<char>, OriginsView>,
    key: KeyView,
    commands: Seq<Seq<char>>,
    command: Seq<char>,
)
    requires
        commands.contains(command),
    ensures
        ({
            let after = registered_with(origins, key, commands).origins;
            &&& after.contains_key(command)
            &&& after[command].servers.contains(key.server)
            &&& after[command].encoded.contains(key)
            &&& after[command].registered || held_as_routed(after, command)
            &&& known_of(origins, command).registered ==> after[command].registered
            &&& forall|server: Seq<char>| #[trigger]
                after[command].servers.contains(server) <==> server == key.server || known_of(
                    origins,
                    command,
                ).servers.contains(server)
        }),
{
    let start = Recording {
        origins: reconciled(origins, key, commands),
        newly_advertised: Seq::empty(),
        newly_encoded: Seq::empty(),
    };
    lemma_all_recorded(start, key, commands);
    lemma_announcements_hold(start, key, commands);
    let after = record_all(start, key, commands).origins;
    assert(is_recorded(after, key, command));
    assert forall|server: Seq<char>| #[trigger]
        after[command].servers.contains(server) <==> server == key.server || known_of(
            origins,
            command,
        ).servers.contains(server) by {
        lemma_recorded_servers(start, key, commands, command, server);
    }
}

proof fn lemma_recorded_servers(
    start: Recording,
    key: KeyView,
    commands: Seq<Seq<char>>,
    name: Seq<char>,
    server: Seq<char>,
)
    ensures
        known_of(record_all(start, key, commands).origins, name).servers.contains(server) <==> (
        commands.contains(name) && server == key.server) || known_of(
            start.origins,
            name,
        ).servers.contains(server),
    decreases commands.len(),
{
    if commands.len() > 0 {
        lemma_recorded_servers(start, key, commands.drop_last(), name, server);
        assert(commands =~= commands.drop_last().push(commands.last()));
        lemma_push_contains(commands.drop_last(), commands.last(), name);
    }
}

/// A connection that stops advertising a name gives up its own claim on it and no
/// other one's. Its server stays an advertiser while another of its connections
/// does, and the editor's registration stays while there is an advertiser.
pub proof fn withdrawing_concerns_one_connection(
    known: OriginsView,
    key: KeyView,
    server: Seq<char>,
    other: KeyView,
)
    ensures
        ({
            let after = withdrawn(known, key);
            &&& after.encoded.contains(other) <==> known.encoded.contains(other) && other != key
            &&& after.reconnectable.contains(other) <==> known.reconnectable.contains(other)
                && other != key
            &&& server != key.server ==> after.servers.contains(server) == known.servers.contains(
                server,
            )
            &&& after.servers.contains(key.server) <==> known.servers.contains(key.server)
                && exists|k: KeyView| #[trigger]
                known.encoded.contains(k) && k != key && k.server == key.server
            &&& after.registered <==> known.registered && exists|s: Seq<char>| #[trigger]
                after.servers.contains(s)
        }),
{
    let after = withdrawn(known, key);
    let left = known.encoded.remove(key);
    lemma_filter_members(known.reconnectable, other_than(key));
    if exists|k: KeyView| #[trigger]
        known.encoded.contains(k) && k != key && k.server == key.server {
        let k = choose|k: KeyView| #[trigger]
            known.encoded.contains(k) && k != key && k.server == key.server;
        assert(left.contains(k));
    }
    if exists|k: KeyView| #[trigger] left.contains(k) && k.server == key.server {
        let k = choose|k: KeyView| #[trigger] left.contains(k) && k.server == key.server;
        assert(known.encoded.contains(k));
    }
    if exists|s: Seq<char>| #[trigger] after.servers.contains(s) {
        let s = choose|s: Seq<char>| #[trigger] after.servers.contains(s);
        assert(!(after.servers =~= Set::<Seq<char>>::empty())) by {
            assert(!Set::<Seq<char>>::empty().contains(s));
        }
    } else {
        assert(after.servers =~= Set::<Seq<char>>::empty());
    }
}

/// A name that is missing from what a connection advertises is withdrawn from it, and
/// the editor is told to let go of exactly what is not held any more: the raw names
/// whose registration ends, and the routed names of the connection.
pub proof fn missing_names_are_let_go(
    origins: Map<Seq<char>, OriginsView>,
    key: KeyView,
    commands: Seq<Seq<char>>,
    names: Seq<Seq<char>>,
    name: Seq<char>,
)
    requires
        origins.contains_key(name),
    ensures
        ({
            let after = registered_with(origins, key, commands).origins;
            &&& !commands.contains(name) ==> after[name] == withdrawn(origins[name], key)
            &&& !commands.contains(name) ==> !after[name].encoded.contains(key)
            &&& orphaned_names(names, origins, key, commands).contains(name) <==> names.contains(
                name,
            ) && origins[name].registered && !after[name].registered
            &&& names.contains(name) && origins[name].encoded.contains(key)
                && !after[name].encoded.contains(key) <==> retired_routes(
                names,
                origins,
                key,
                commands,
            ).contains(encoded(key, name))
        }),
{
    let start = Recording {
        origins: reconciled(origins, key, commands),
        newly_advertised: Seq::empty(),
        newly_encoded: Seq::empty(),
    };
    let after = registered_with(origins, key, commands).origins;
    let orphans = |n: Seq<char>| is_orphaned(origins, key, commands, n);
    let unrouted = |n: Seq<char>| loses_routed(origins, key, commands, n);
    let route = |n: Seq<char>| encoded(key, n);
    lemma_filter_members(names, orphans);
    lemma_filter_members(names, unrouted);
    lemma_announcements_hold(start, key, commands);
    if commands.contains(name) {
        lemma_all_recorded(start, key, commands);
        assert(is_recorded(after, key, name));
        assert(start.origins[name] == origins[name]);
    } else {
        lemma_others_untouched(start, key, commands, name);
        lemma_withdrawn_once(origins[name], key);
    }
    let gone = names.filter(unrouted);
    let texts = gone.map_values(route);
    if gone.contains(name) {
        let i = choose|i: int| 0 <= i < gone.len() && gone[i] == name;
        assert(texts[i] == encoded(key, name));
    }
    if texts.contains(encoded(key, name)) {
        let i = choose|i: int| 0 <= i < texts.len() && texts[i] == encoded(key, name);
        encoded_is_injective(
            RouteView { key, command: gone[i] },
            RouteView { key, command: name },
        );
        assert(gone.contains(gone[i]));
    }
}

/// The editor is told of exactly what it comes to hold by an advertisement: each raw
/// name that was not held before and is now, and each routed name of the connection
/// that is new and whose text is no raw name. Nothing is announced that was not
/// advertised.
pub proof fn news_are_announced(
    origins: Map<Seq<char>, OriginsView>,
    key: KeyView,
    commands: Seq<Seq<char>>,
    name: Seq<char>,
)
    ensures
        ({
            let outcome = registered_with(origins, key, commands);
            let before = known_of(reconciled(origins, key, commands), name);
            let after = known_of(outcome.origins, name);
            &&& outcome.newly_advertised.contains(name) <==> !before.registered && after.registered
            &&& outcome.newly_advertised.contains(name) ==> commands.contains(name)
            &&& !before.encoded.contains(key) && after.encoded.contains(key)
                && !outcome.origins.contains_key(encoded(key, name))
                ==> outcome.newly_encoded.contains(encoded(key, name))
            &&& outcome.newly_encoded.contains(encoded(key, name)) ==> commands.contains(name)
        }),
{
    let start = Recording {
        origins: reconciled(origins, key, commands),
        newly_advertised: Seq::empty(),
        newly_encoded: Seq::empty(),
    };
    lemma_news_are_announced(start, key, commands, name);
    lemma_announcements_hold(start, key, commands);
}

proof fn lemma_news_are_announced(
    start: Recording,
    key: KeyView,
    commands: Seq<Seq<char>>,
    name: Seq<char>,
)
    requires
        start.newly_advertised.len() == 0,
        start.newly_encoded.len() == 0,
    ensures
        ({
            let now = record_all(start, key, commands);
            let before = known_of(start.origins, name);
            let after = known_of(now.origins, name);
            &&& before.registered ==> after.registered
            &&& !before.registered && after.registered ==> now.newly_advertised.contains(name)
            &&& now.newly_advertised.contains(name) ==> commands.contains(name)
            &&& before.encoded.contains(key) ==> after.encoded.contains(key)
            &&& !before.encoded.contains(key) && after.encoded.contains(key)
                && !now.origins.contains_key(encoded(key, name)) ==> now.newly_encoded.contains(
                encoded(key, name),
            )
            &&& now.newly_encoded.contains(encoded(key, name)) ==> commands.contains(name)
        }),
    decreases commands.len(),
{
    if commands.len() > 0 {
        let shorter = commands.drop_last();
        let last = commands.last();
        lemma_news_are_announced(start, key, shorter, name);
        let so_far = record_all(start, key, shorter);
        assert(commands =~= shorter.push(last));
        lemma_push_contains(shorter, last, name);
        lemma_push_contains(so_far.newly_advertised, last, name);
        lemma_push_contains(so_far.newly_encoded, encoded(key, last), encoded(key, name));
        if encoded(key, last) == encoded(key, name) {
            encoded_is_injective(
                RouteView { key, command: last },
                RouteView { key, command: name },
            );
        }
    }
}

/// Taking an announcement back touches exactly the names that it is about. Who
/// advertises a name is not forgotten by it.
pub proof fn taking_back_touches_its_own(
    origins: Map<Seq<char>, OriginsView>,
    raw: Seq<Seq<char>>,
    routed: Seq<Seq<char>>,
    name: Seq<char>,
    key: KeyView,
)
    requires
        origins.contains_key(name),
    ensures
        ({
            let after = taken_back(origins, raw, routed);
            &&& after.contains_key(name)
            &&& after[name].registered <==> origins[name].registered && !raw.contains(name)
            &&& after[name].encoded.contains(key) <==> origins[name].encoded.contains(key)
                && !routed.contains(encoded(key, name))
            &&& after[name].servers == origins[name].servers
            &&& after[name].reconnectable == origins[name].reconnectable
        }),
{
}

/// Servers that cannot be started lose exactly their own: a routed name goes with the
/// server of its connection, and a raw name goes when none of its advertisers can be
/// started. Who advertised a name is not forgotten by it.
pub proof fn unstartable_servers_lose_their_own(
    origins: Map<Seq<char>, OriginsView>,
    verdicts: Map<Seq<char>, bool>,
    name: Seq<char>,
    key: KeyView,
)
    requires
        origins.contains_key(name),
    ensures
        ({
            let after = all_surviving(origins, verdicts);
            let starts = verdicts.contains_key(key.server) && verdicts[key.server];
            &&& after.contains_key(name)
            &&& after[name].encoded.contains(key) <==> origins[name].encoded.contains(key)
                && starts
            &&& is_retired_routed(origins, verdicts, encoded(key, name))
                <==> origins[name].encoded.contains(key) && !starts
            &&& is_retired(origins, verdicts, name) <==> origins[name].registered && (exists|
                s: Seq<char>,
            | #[trigger]
                origins[name].servers.contains(s)) && (forall|s: Seq<char>| #[trigger]
                origins[name].servers.contains(s) ==> !(verdicts.contains_key(s) && verdicts[s]))
            &&& after[name].registered <==> origins[name].registered && !is_retired(
                origins,
                verdicts,
                name,
            )
            &&& after[name].servers == origins[name].servers
            &&& after[name].reconnectable == origins[name].reconnectable
        }),
{
    let text = encoded(key, name);
    if is_retired_routed(origins, verdicts, text) {
        let route = choose|route: RouteView|
            text == #[trigger] encoded(route.key, route.command) && origins.contains_key(
                route.command,
            ) && origins[route.command].encoded.contains(route.key) && !can_start(
                verdicts,
                route.key.server,
            );
        encoded_is_injective(route, RouteView { key, command: name });
    }
    if origins[name].encoded.contains(key) && !can_start(verdicts, key.server) {
        let route = RouteView { key, command: name };
        assert(text == encoded(route.key, route.command));
    }
    if exists|s: Seq<char>| #[trigger] origins[name].servers.contains(s) {
        let s = choose|s: Seq<char>| #[trigger] origins[name].servers.contains(s);
        assert(!(origins[name].servers =~= Set::<Seq<char>>::empty())) by {
            assert(!Set::<Seq<char>>::empty().contains(s));
        }
    } else {
        assert(origins[name].servers =~= Set::<Seq<char>>::empty());
    }
}

/// A server is asked about exactly where it advertised some name, or a routed name on
/// one of its connections is held.
pub proof fn servers_are_asked_about_their_names(
    origins: Map<Seq<char>, OriginsView>,
    server: Seq<char>,
    name: Seq<char>,
    key: KeyView,
)
    ensures
        origins.contains_key(name) && origins[name].servers.contains(server) ==> is_concerned(
            origins,
            server,
        ),
        origins.contains_key(name) && origins[name].encoded.contains(key) ==> is_concerned(
            origins,
            key.server,
        ),
        (forall|n: Seq<char>| #[trigger]
            origins.contains_key(n) ==> !origins[n].servers.contains(server) && forall|k: KeyView|
             #[trigger]
                origins[n].encoded.contains(k) ==> k.server != server) ==> !is_concerned(
            origins,
            server,
        ),
{
    if origins.contains_key(name) && origins[name].encoded.contains(key) {
        assert(concerns(origins[name], key.server));
    }
    if is_concerned(origins, server) {
        let n = choose|n: Seq<char>| #[trigger]
            origins.contains_key(n) && concerns(origins[n], server);
        assert(origins.contains_key(n));
    }
}

} // verus!

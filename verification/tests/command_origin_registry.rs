use bridge_pool::command_origin_registry::CommandOriginRegistry;
use bridge_pool::command_route::encode_command;
use bridge_pool::connection_key::ConnectionKey;

fn fallback(server: &str) -> ConnectionKey {
    ConnectionKey::new(server, None)
}

fn marker(server: &str, root: &str) -> ConnectionKey {
    ConnectionKey::new(server, Some(root.to_string()))
}

#[test]
fn register_reports_only_new_names_and_same_origin_is_idempotent() {
    let mut reg = CommandOriginRegistry::default();
    let ruff = fallback("ruff");

    assert_eq!(
        reg.register(&ruff, vec!["ruff.fix".to_string(), "ruff.sort".to_string()])
            .newly_advertised,
        vec!["ruff.fix".to_string(), "ruff.sort".to_string()]
    );
    assert_eq!(reg.reconnectable_origins("ruff.fix"), vec![ruff.clone()]);

    // The same connection advertising again neither duplicates the editor
    // registration nor makes its route ambiguous.
    assert!(
        reg.register(&ruff, vec!["ruff.fix".to_string()])
            .newly_advertised
            .is_empty()
    );
    assert_eq!(reg.reconnectable_origins("ruff.fix"), vec![ruff]);
}

#[test]
fn an_unknown_name_is_neither_registered_nor_reconnectable() {
    let mut reg = CommandOriginRegistry::default();
    assert!(!reg.is_registered("unknown.cmd"));
    assert!(reg.reconnectable_origins("unknown.cmd").is_empty());
}

#[test]
fn collision_registers_the_name_once_and_retains_both_fallback_origins() {
    let mut reg = CommandOriginRegistry::default();
    let ruff = fallback("ruff");
    let eslint = fallback("eslint");

    assert_eq!(
        reg.register(&ruff, vec!["source.fixAll".to_string()])
            .newly_advertised,
        vec!["source.fixAll"]
    );
    assert!(
        reg.register(&eslint, vec!["source.fixAll".to_string()])
            .newly_advertised
            .is_empty(),
        "the editor command name is registered only once"
    );
    assert_eq!(
        reg.reconnectable_origins("source.fixAll"),
        vec![ruff, eslint]
    );
}

#[test]
fn re_advertisement_inside_a_collision_neither_duplicates_nor_reorders() {
    let mut reg = CommandOriginRegistry::default();
    let ruff = fallback("ruff");
    let eslint = fallback("eslint");
    reg.register(&ruff, vec!["source.fixAll".to_string()]);
    reg.register(&eslint, vec!["source.fixAll".to_string()]);

    assert!(
        reg.register(&ruff, vec!["source.fixAll".to_string()])
            .newly_advertised
            .is_empty()
    );

    assert_eq!(
        reg.reconnectable_origins("source.fixAll"),
        vec![ruff, eslint],
        "a respawn must not append a second entry nor move itself to the back"
    );
}

#[test]
fn a_name_is_registered_once_until_it_is_retired() {
    let mut reg = CommandOriginRegistry::default();
    let ruff = fallback("ruff");
    assert_eq!(
        reg.register(&ruff, vec!["ruff.fix".to_string()])
            .newly_advertised,
        vec!["ruff.fix"]
    );
    assert!(
        reg.register(&ruff, vec!["ruff.fix".to_string()])
            .newly_advertised
            .is_empty()
    );

    // Config drops ruff: nothing can advertise the name any more, so BOTH
    // the raw entry and ruff's routed one die.
    let mut retired = reg.retire_unadvertisable(|_| false);
    retired.sort();
    assert_eq!(
        retired,
        vec![
            "kakehashi|c|ruff||ruff.fix".to_string(),
            "ruff.fix".to_string()
        ]
    );
    assert!(
        reg.is_registered("ruff.fix"),
        "the decode gate must keep recognising a retired name — a client can \
         still fire one from a keybind or a stale cache"
    );
    assert!(
        reg.retire_unadvertisable(|_| false).is_empty(),
        "retiring twice would unregister an id the editor no longer holds"
    );

    // ruff comes back, so the name becomes real again and must be re-offered.
    assert_eq!(
        reg.register(&ruff, vec!["ruff.fix".to_string()])
            .newly_advertised,
        vec!["ruff.fix"],
        "a retired name must be re-registered, not skipped as already known"
    );
}

#[test]
fn every_connection_gets_its_own_encoded_entry() {
    // The escape hatch a refusal leaves the user without: a raw name shared
    // by two roots is unresolvable, but each root's encoded entry names its
    // own connection, so picking one IS the disambiguation.
    let mut reg = CommandOriginRegistry::default();
    let a = marker("ruff", "file:///repo-a");
    let b = marker("ruff", "file:///repo-b");

    let first = reg.register(&a, vec!["ruff.fix".to_string()]);
    let second = reg.register(&b, vec!["ruff.fix".to_string()]);

    assert_eq!(first.newly_advertised, vec!["ruff.fix".to_string()]);
    assert!(
        second.newly_advertised.is_empty(),
        "the raw name is still announced exactly once"
    );
    assert_eq!(first.newly_encoded.len(), 1);
    assert_eq!(second.newly_encoded.len(), 1);
    assert_ne!(
        first.newly_encoded, second.newly_encoded,
        "two roots must get two distinguishable entries"
    );
    for encoded in first.newly_encoded.iter().chain(&second.newly_encoded) {
        assert!(encoded.contains("ruff.fix"), "{encoded}");
    }
}

#[test]
fn a_routed_only_announcement_that_was_never_sent_is_taken_back() {
    // The rollback shape that keying off the RAW list misses entirely: the
    // second connection contributes a routed entry and no raw one, because
    // the first already announced the raw name.
    let mut reg = CommandOriginRegistry::default();
    let a = marker("ruff", "file:///repo-a");
    let b = marker("ruff", "file:///repo-b");
    reg.register(&a, vec!["ruff.fix".to_string()]);

    let second = reg.register(&b, vec!["ruff.fix".to_string()]);
    assert!(
        second.newly_advertised.is_empty(),
        "the raw name was already announced by repo-a"
    );
    assert_eq!(second.newly_encoded.len(), 1);

    reg.forget_registration(&second);

    assert_eq!(
        reg.register(&b, vec!["ruff.fix".to_string()]).newly_encoded,
        second.newly_encoded,
        "a routed entry the editor never received must be offered again"
    );
}

#[test]
fn a_text_two_owners_could_claim_is_announced_by_at_most_one() {
    // One registration id is derived from the final text, so two owners of
    // one string would share it and either retiring would unregister what
    // the other still needs. At most one owner is the property that matters;
    // WHICH one depends on advertisement order and does not.
    //
    // The survivor is unusable either way — dispatch refuses that exact text,
    // since it cannot tell the two readings apart — so nothing the user could
    // have run is lost.
    let mut reg = CommandOriginRegistry::default();
    let srv = fallback("srv");
    let collide = encode_command(&srv, "foo");

    let outcome = reg.register(&srv, vec!["foo".to_string(), collide.clone()]);

    let owners = outcome
        .newly_advertised
        .iter()
        .chain(&outcome.newly_encoded)
        .filter(|name| **name == collide)
        .count();
    assert_eq!(
        owners, 1,
        "two owners would share one registration id: {outcome:?}"
    );
    assert!(
        reg.is_registered(&collide),
        "it is still a name the decode gate has to recognise"
    );
}

#[test]
fn re_advertising_from_the_same_connection_adds_no_second_encoded_entry() {
    let mut reg = CommandOriginRegistry::default();
    let a = marker("ruff", "file:///repo-a");
    reg.register(&a, vec!["ruff.fix".to_string()]);

    assert!(
        reg.register(&a, vec!["ruff.fix".to_string()])
            .newly_encoded
            .is_empty(),
        "a respawn under the same key must not duplicate its palette row"
    );
}

#[test]
fn one_connection_dropping_a_command_retires_only_its_own_encoded_entry() {
    let mut reg = CommandOriginRegistry::default();
    let a = marker("ruff", "file:///repo-a");
    let b = marker("ruff", "file:///repo-b");
    reg.register(&a, vec!["ruff.fix".to_string()]);
    let b_entry = reg.register(&b, vec!["ruff.fix".to_string()]).newly_encoded;

    let outcome = reg.register(&b, Vec::new());

    assert_eq!(outcome.retired_encoded, b_entry);
    assert!(
        outcome.orphaned.is_empty(),
        "the raw name survives — repo-a still advertises it"
    );
}

#[test]
fn a_server_that_came_back_with_no_provider_at_all_is_reconciled() {
    // The shape an upgrade takes when it drops `executeCommandProvider`
    // entirely. Treating "no list" as "no news" would leave the previous
    // incarnation's claims standing forever.
    let mut reg = CommandOriginRegistry::default();
    let ruff = fallback("ruff");
    reg.register(&ruff, vec!["ruff.fix".to_string()]);

    let outcome = reg.register(&ruff, Vec::new());

    assert_eq!(
        outcome.orphaned,
        vec!["ruff.fix".to_string()],
        "its last advertiser stopped offering it, so the editor must stop too"
    );
    assert!(reg.reconnectable_origins("ruff.fix").is_empty());
    assert!(
        reg.is_registered("ruff.fix"),
        "the decode gate keeps recognising it; only the registration is gone"
    );
}

#[test]
fn an_in_place_upgrade_retires_a_command_its_server_no_longer_has() {
    // The config-driven sweep cannot see this: the server is still perfectly
    // well configured, it just stopped offering the command.
    let mut reg = CommandOriginRegistry::default();
    let ruff = fallback("ruff");
    reg.register(&ruff, vec!["old.fix".to_string(), "ruff.fix".to_string()]);
    assert!(
        reg.retire_unadvertisable(|_| true).is_empty(),
        "while the server is configured, nothing config-driven can retire it"
    );

    let outcome = reg.register(&ruff, vec!["ruff.fix".to_string()]);

    assert_eq!(outcome.orphaned, vec!["old.fix".to_string()]);
    assert!(
        outcome.newly_advertised.is_empty(),
        "ruff.fix was already registered and must not be re-announced"
    );
}

#[test]
fn one_server_dropping_a_command_another_still_has_retires_nothing() {
    let mut reg = CommandOriginRegistry::default();
    let ruff = fallback("ruff");
    reg.register(&ruff, vec!["source.fixAll".to_string()]);
    reg.register(&fallback("eslint"), vec!["source.fixAll".to_string()]);

    let outcome = reg.register(&ruff, Vec::new());

    assert!(
        outcome.orphaned.is_empty(),
        "eslint still advertises it, so the palette entry is still real"
    );
    assert!(reg.is_registered("source.fixAll"));
}

#[test]
fn a_registration_that_was_never_sent_is_not_remembered_as_sent() {
    // The client cannot accept dynamic registration, or the forwarding loop
    // is gone: nothing went out, so the editor holds nothing. Believing
    // otherwise would later retire an id it never had, and would refuse to
    // offer the name if the capability arrived by another route.
    let mut reg = CommandOriginRegistry::default();
    let ruff = fallback("ruff");
    let outcome = reg.register(&ruff, vec!["ruff.fix".to_string()]);
    assert_eq!(outcome.newly_advertised, vec!["ruff.fix".to_string()]);

    reg.forget_registration(&outcome);

    let again = reg.register(&ruff, vec!["ruff.fix".to_string()]);
    assert_eq!(
        again.newly_advertised,
        vec!["ruff.fix".to_string()],
        "a name that was never announced must be announceable again"
    );
    assert_eq!(
        again.newly_encoded, outcome.newly_encoded,
        "the routed entry rode the same unsent request, so it must come back too"
    );
}

#[test]
fn each_server_is_asked_about_once_per_reload() {
    // The answer comes from a full wildcard merge, so asking per
    // (name, server) pair makes a reload cost O(commands) merges per server.
    let mut reg = CommandOriginRegistry::default();
    let ruff = fallback("ruff");
    reg.register(
        &ruff,
        vec![
            "ruff.fix".to_string(),
            "ruff.sort".to_string(),
            "ruff.format".to_string(),
        ],
    );
    reg.register(&fallback("eslint"), vec!["eslint.fix".to_string()]);

    let asked = std::cell::RefCell::new(Vec::new());
    reg.retire_unadvertisable(|server| {
        asked.borrow_mut().push(server.to_string());
        false
    });

    let mut asked = asked.into_inner();
    asked.sort();
    assert_eq!(asked, vec!["eslint".to_string(), "ruff".to_string()]);
}

#[test]
fn a_name_one_surviving_server_still_advertises_is_not_retired() {
    let mut reg = CommandOriginRegistry::default();
    reg.register(&fallback("ruff"), vec!["source.fixAll".to_string()]);
    reg.register(&fallback("eslint"), vec!["source.fixAll".to_string()]);

    // Deleting ruff leaves the RAW name real — eslint still advertises it —
    // but ruff's routed entry names a connection that is gone, so it must
    // not be left visible and broken.
    assert_eq!(
        reg.retire_unadvertisable(|server| server == "eslint"),
        vec!["kakehashi|c|ruff||source.fixAll".to_string()],
    );
    assert!(
        reg.retire_unadvertisable(|_| false)
            .contains(&"source.fixAll".to_string())
    );
}

#[test]
fn a_respawn_that_dropped_a_command_stops_being_a_candidate_for_it() {
    // The false-ambiguity shape: two fallback servers advertise a name, one
    // comes back after an upgrade without it, the other dies. The name has
    // exactly one revivable origin left and must not read as ambiguous.
    let mut reg = CommandOriginRegistry::default();
    let ruff = fallback("ruff");
    let eslint = fallback("eslint");
    reg.register(&ruff, vec!["source.fixAll".to_string()]);
    reg.register(&eslint, vec!["source.fixAll".to_string()]);
    assert_eq!(
        reg.reconnectable_origins("source.fixAll"),
        vec![ruff.clone(), eslint.clone()]
    );

    // eslint re-handshakes advertising something else entirely.
    reg.register(&eslint, vec!["eslint.restart".to_string()]);

    assert_eq!(
        reg.reconnectable_origins("source.fixAll"),
        vec![ruff],
        "a server that no longer advertises the name must not keep a vote on it"
    );
    assert!(
        reg.is_registered("source.fixAll"),
        "the name stays registered — another server may still advertise it"
    );
}

#[test]
fn a_marker_rooted_advertiser_registers_the_name_without_becoming_a_candidate() {
    let mut reg = CommandOriginRegistry::default();
    let marker_rooted = marker("ruff", "file:///w/a");

    assert_eq!(
        reg.register(&marker_rooted, vec!["ruff.fix".to_string()])
            .newly_advertised,
        vec!["ruff.fix"],
        "the editor is still told about the name"
    );
    assert!(reg.is_registered("ruff.fix"));
    assert!(
        reg.reconnectable_origins("ruff.fix").is_empty(),
        "a marker-rooted key cannot be rebuilt without a document, so it is \
         not a reconnect candidate"
    );
}

#[test]
fn a_marker_rooted_advertiser_cannot_out_vote_the_reconnectable_one() {
    // The regression this shape exists to prevent: a key the reconnect
    // branch would reject anyway must not make the set look ambiguous and
    // cost the one key that works.
    let mut reg = CommandOriginRegistry::default();
    reg.register(&marker("ruff", "file:///w/a"), vec!["ruff.fix".to_string()]);
    let reconnectable = fallback("ruff");
    reg.register(&reconnectable, vec!["ruff.fix".to_string()]);

    assert_eq!(
        reg.reconnectable_origins("ruff.fix"),
        vec![reconnectable],
        "the sole revivable origin must survive alongside a dead marker root"
    );
}

#[test]
fn a_list_that_is_advertised_twice_is_announced_once() {
    let mut registry = CommandOriginRegistry::default();
    let commands = vec!["one".to_string(), "two".to_string()];
    let first = registry.register(&marker("lua", "/a"), commands.clone());
    assert_eq!(first.newly_advertised.len(), 2);
    assert_eq!(first.newly_encoded.len(), 2);
    let second = registry.register(&marker("lua", "/a"), commands.clone());
    assert!(second.newly_advertised.is_empty());
    assert!(second.newly_encoded.is_empty());
    let sibling = registry.register(&marker("lua", "/b"), commands);
    assert!(sibling.newly_advertised.is_empty(), "the raw names are held already");
    assert_eq!(sibling.newly_encoded.len(), 2);
}

#[test]
fn an_advertisement_that_was_taken_back_comes_out_the_same() {
    let mut reg = CommandOriginRegistry::default();
    let ruff = fallback("ruff");
    let names = || vec!["ruff.fix".to_string(), "ruff.sort".to_string()];
    reg.register(&fallback("eslint"), vec!["ruff.sort".to_string()]);
    let first = reg.register(&ruff, names());
    reg.forget_registration(&first);
    let second = reg.register(&ruff, names());
    assert_eq!(second.newly_advertised, vec!["ruff.fix".to_string()]);
    assert_eq!(second.newly_advertised, first.newly_advertised);
    assert_eq!(second.newly_encoded, first.newly_encoded);
    assert_eq!(second.newly_encoded.len(), 2);
    assert!(second.orphaned.is_empty());
    assert!(second.retired_encoded.is_empty());
}

#[test]
fn reconnectable_origins_follow_what_is_advertised() {
    let mut reg = CommandOriginRegistry::default();
    let (a, b) = (fallback("a"), fallback("b"));
    let name = || vec!["fix".to_string()];
    reg.register(&a, name());
    reg.register(&b, name());
    reg.register(&marker("c", "file:///w"), name());
    reg.register(&ConnectionKey::shared("d"), name());
    reg.register(&a, name());
    assert_eq!(reg.reconnectable_origins("fix"), vec![a.clone(), b.clone()]);
    reg.register(&a, Vec::new());
    assert_eq!(reg.reconnectable_origins("fix"), vec![b.clone()]);
    reg.register(&a, name());
    assert_eq!(reg.reconnectable_origins("fix"), vec![b, a]);
}

//! Taking over a changed configuration: servers that need a new process are
//! shut down, the others are told of their settings.

use crate::connection_handle::{ConnectionHandle, HandleView, NotificationSendResult};
use crate::connection_key::{key_views, lemma_key_views_push, ConnectionKey, KeyView};
use crate::connection_ref::{ConnectionRef, RefView};
use crate::connection_state::ConnectionState;
use crate::pool::LanguageServerPool;
use crate::pool_state::{all_taken_out, PoolView};
use crate::settings::{
    copy_json, launches_agree_in_every_part, same_json, same_launch_config, BridgeServerConfig,
    LaunchView,
};
use crate::table::Table;
use crate::text::texts;
use vstd::prelude::*;

verus! {

/// What the new configuration says of a server.
pub struct AnswerView {
    pub launch: LaunchView,
    pub settings: Option<serde_json::Value>,
}

/// What the new configuration says of a server, if it says anything.
pub open spec fn answer_of(config: Option<BridgeServerConfig>) -> Option<AnswerView> {
    match config {
        Some(config) => Some(AnswerView { launch: config.launch(), settings: config.settings }),
        None => None,
    }
}

/// What the new configuration says, by connection.
pub open spec fn answers_of(configs: Map<KeyView, Option<BridgeServerConfig>>) -> Map<
    KeyView,
    Option<AnswerView>,
> {
    configs.map_values(|config: Option<BridgeServerConfig>| answer_of(config))
}

/// Whether a connection cannot go on under the new configuration: its server is
/// not configured any more, or would be started differently. Of a connection that
/// does not remember how it was started this cannot be said.
pub open spec fn is_outdated(handle: HandleView, answer: Option<AnswerView>) -> bool {
    handle.launch matches Some(old_launch) && !(answer matches Some(new_answer)
        && new_answer.launch == old_launch)
}

/// The settings that the new configuration has for a server.
pub open spec fn new_settings(answer: Option<AnswerView>) -> Option<serde_json::Value> {
    match answer {
        Some(answer) => answer.settings,
        None => None,
    }
}

/// Holds of the connections that cannot go on.
pub open spec fn outdated(
    connections: Map<KeyView, HandleView>,
    answers: Map<KeyView, Option<AnswerView>>,
) -> spec_fn(KeyView) -> bool {
    |key: KeyView| is_outdated(connections[key], answers[key])
}

/// Holds of the connections that are to be told of their settings: they changed,
/// and the server can hear of them.
pub open spec fn to_be_told(
    connections: Map<KeyView, HandleView>,
    answers: Map<KeyView, Option<AnswerView>>,
) -> spec_fn(KeyView) -> bool {
    |key: KeyView|
        connections[key].settings != new_settings(answers[key]) && connections[key].state is Ready
}

/// Every connection serves the settings that the new configuration has for it.
pub open spec fn settings_stored(pool: PoolView, answers: Map<KeyView, Option<AnswerView>>) -> PoolView {
    PoolView {
        connections: Map::new(
            |key: KeyView| pool.connections.contains_key(key),
            |key: KeyView|
                HandleView { settings: new_settings(answers[key]), ..pool.connections[key] },
        ),
        ..pool
    }
}

/// A message to a server about its settings.
#[derive(Debug)]
pub struct SettingsPush {
    pub target: ConnectionRef,
    /// The settings. None stand for `null`.
    pub settings: Option<serde_json::Value>,
}

/// The mathematical content of a [`SettingsPush`].
pub struct PushView {
    pub target: RefView,
    pub settings: Option<serde_json::Value>,
}

impl View for SettingsPush {
    type V = PushView;

    open spec fn view(&self) -> PushView {
        PushView { target: self.target@, settings: self.settings }
    }
}

/// The contents of a list of messages.
pub open spec fn push_views(list: Seq<SettingsPush>) -> Seq<PushView> {
    Seq::new(list.len(), |i: int| list[i]@)
}

/// The messages to some connections.
pub open spec fn pushes_to(
    connections: Map<KeyView, HandleView>,
    answers: Map<KeyView, Option<AnswerView>>,
    keys: Seq<KeyView>,
) -> Seq<PushView> {
    Seq::new(
        keys.len(),
        |i: int|
            PushView {
                target: RefView { key: keys[i], id: connections[keys[i]].id },
                settings: new_settings(answers[keys[i]]),
            },
    )
}

/// The contents of a list of connections.
pub open spec fn handle_views(list: Seq<ConnectionHandle>) -> Seq<HandleView> {
    Seq::new(list.len(), |i: int| list[i]@)
}

/// All connections of a list are in order.
pub open spec fn all_wf(list: Seq<ConnectionHandle>) -> bool {
    forall|i: int| 0 <= i < list.len() ==> (#[trigger] list[i]).wf()
}

/// The connections that were held under some keys, each being shut down.
pub open spec fn closing_handles(connections: Map<KeyView, HandleView>, keys: Seq<KeyView>) -> Seq<
    HandleView,
> {
    Seq::new(keys.len(), |i: int| connections[keys[i]].in_state(ConnectionState::Closing))
}

/// What a changed configuration calls for.
pub struct SettingsPlan {
    /// The connections that were taken out, to be shut down.
    pub stale: Vec<ConnectionHandle>,
    /// The messages to the others.
    pub pushes: Vec<SettingsPush>,
}

/// Whether this is what becomes of a pool under what the new configuration says.
pub open spec fn is_reconfigured(
    before: PoolView,
    order: Seq<KeyView>,
    answers: Map<KeyView, Option<AnswerView>>,
    after: PoolView,
    order_after: Seq<KeyView>,
    plan: SettingsPlan,
) -> bool {
    let gone = order.filter(outdated(before.connections, answers));
    let left = all_taken_out(before, gone);
    &&& after == settings_stored(left, answers)
    &&& handle_views(plan.stale@) == closing_handles(before.connections, gone)
    &&& all_wf(plan.stale@)
    &&& push_views(plan.pushes@) == pushes_to(
        left.connections,
        answers,
        order_after.filter(to_be_told(left.connections, answers)),
    )
}

/// Whether these are answers that a function gave about the servers of some
/// connections.
pub open spec fn answered_by<F: Fn(&str) -> Option<BridgeServerConfig>>(
    resolve: F,
    connections: Map<KeyView, HandleView>,
    answers: Map<KeyView, Option<AnswerView>>,
) -> bool {
    forall|key: KeyView| #[trigger]
        connections.contains_key(key) ==> answers.contains_key(key) && exists|
            name: &str,
            config: Option<BridgeServerConfig>,
        |
            name@ == key.server && #[trigger] call_ensures(resolve, (name,), config)
                && answers[key] == answer_of(config)
}

proof fn lemma_all_taken_out(pool: PoolView, keys: Seq<KeyView>)
    ensures
        forall|key: KeyView| #[trigger]
            all_taken_out(pool, keys).connections.contains_key(key) <==> (
            pool.connections.contains_key(key) && !keys.contains(key)),
        forall|key: KeyView| #[trigger]
            all_taken_out(pool, keys).connections.contains_key(key) ==> all_taken_out(
                pool,
                keys,
            ).connections[key] == pool.connections[key],
    decreases keys.len(),
{
    if keys.len() > 0 {
        let shorter = keys.drop_last();
        lemma_all_taken_out(pool, shorter);
        assert forall|key: KeyView| #[trigger]
            all_taken_out(pool, keys).connections.contains_key(key) <==> (
            pool.connections.contains_key(key) && !keys.contains(key)) by {
            assert(keys =~= shorter.push(keys.last()));
            crate::seqs::lemma_push_contains(shorter, keys.last(), key);
        }
    }
}

spec fn partly_stored(
    connections: Map<KeyView, HandleView>,
    answers: Map<KeyView, Option<AnswerView>>,
    done: Seq<KeyView>,
) -> Map<KeyView, HandleView> {
    Map::new(
        |key: KeyView| connections.contains_key(key),
        |key: KeyView|
            if done.contains(key) {
                HandleView { settings: new_settings(answers[key]), ..connections[key] }
            } else {
                connections[key]
            },
    )
}

impl LanguageServerPool {
    /// The keys of the connections that cannot go on under the new configuration.
    fn outdated_keys(&self, configs: &Table<ConnectionKey, Option<BridgeServerConfig>>) -> (keys:
        Vec<ConnectionKey>)
        requires
            self.wf(),
            configs.wf(),
            forall|key: KeyView| #[trigger]
                self@.connections.contains_key(key) ==> configs@.contains_key(key),
        ensures
            key_views(keys@) == self.order().filter(
                outdated(self@.connections, answers_of(configs@)),
            ),
    {
        let ghost order = self.order();
        let ghost connections = self@.connections;
        let ghost answers = answers_of(configs@);
        let ghost keep = outdated(connections, answers);
        let mut keys: Vec<ConnectionKey> = Vec::new();
        let mut i: usize = 0;
        proof {
            reveal(Seq::filter);
            self.connections.lemma_keys();
            assert(key_views(keys@) =~= order.take(0).filter(keep));
        }
        while i < self.connections.len()
            invariant
                self.wf(),
                configs.wf(),
                order == self.connections.keys(),
                connections == self.connections@,
                answers == answers_of(configs@),
                keep == outdated(connections, answers),
                i <= order.len(),
                forall|j: int|
                    0 <= j < order.len() ==> connections.contains_key(#[trigger] order[j]),
                forall|key: KeyView| #[trigger]
                    connections.contains_key(key) ==> configs@.contains_key(key),
                key_views(keys@) == order.take(i as int).filter(keep),
            decreases order.len() - i,
        {
            let handle = self.connections.handle_at(i);
            proof {
                assert(order.take(i + 1) =~= order.take(i as int).push(order[i as int]));
                order.take(i as int).lemma_filter_push(order[i as int], keep);
                assert(connections.contains_key(order[i as int]));
            }
            let gone = match (handle.launch_config(), configs.get(handle.key())) {
                (Some(old_config), Some(Some(new_config))) => !same_launch_config(
                    old_config,
                    new_config,
                ),
                (Some(_), _) => true,
                (None, _) => false,
            };
            if gone {
                let key = handle.key().clone();
                proof {
                    lemma_key_views_push(keys@, key);
                }
                keys.push(key);
            }
            i += 1;
        }
        assert(order.take(order.len() as int) =~= order);
        keys
    }

    /// Takes some connections out and begins to shut them down.
    fn take_all_out(&mut self, keys: &Vec<ConnectionKey>) -> (stale: Vec<ConnectionHandle>)
        requires
            old(self).wf(),
            key_views(keys@).no_duplicates(),
            forall|i: int|
                0 <= i < keys@.len() ==> old(self)@.connections.contains_key(
                    #[trigger] key_views(keys@)[i],
                ),
        ensures
            final(self).wf(),
            final(self)@ == all_taken_out(old(self)@, key_views(keys@)),
            handle_views(stale@) == closing_handles(old(self)@.connections, key_views(keys@)),
            all_wf(stale@),
    {
        let ghost views = key_views(keys@);
        let ghost start = self@;
        let mut stale: Vec<ConnectionHandle> = Vec::new();
        let mut i: usize = 0;
        proof {
            assert(views.take(0) =~= Seq::<KeyView>::empty());
            assert(handle_views(stale@) =~= closing_handles(start.connections, views.take(0)));
        }
        while i < keys.len()
            invariant
                self.wf(),
                views == key_views(keys@),
                views.no_duplicates(),
                i <= keys@.len(),
                start == old(self)@,
                forall|j: int|
                    0 <= j < keys@.len() ==> start.connections.contains_key(#[trigger] views[j]),
                self@ == all_taken_out(start, views.take(i as int)),
                stale@.len() == i,
                all_wf(stale@),
                handle_views(stale@) == closing_handles(start.connections, views.take(i as int)),
            decreases keys@.len() - i,
        {
            let ghost done = views.take(i as int);
            let ghost key = views[i as int];
            proof {
                lemma_all_taken_out(start, done);
                assert(start.connections.contains_key(key));
                assert(!done.contains(key)) by {
                    if done.contains(key) {
                        let j = choose|j: int| 0 <= j < done.len() && done[j] == key;
                        assert(views[j] == views[i as int]);
                    }
                }
                assert(self@.connections.contains_key(key));
                assert(views.take(i + 1).drop_last() =~= done);
                assert(views.take(i + 1).last() == key);
            }
            if let Some(handle) = self.take_out(&keys[i]) {
                let mut handle = handle;
                handle.begin_shutdown();
                let ghost before = stale@;
                stale.push(handle);
                assert(handle_views(stale@) =~= closing_handles(
                    start.connections,
                    views.take(i + 1),
                )) by {
                    assert forall|j: int| 0 <= j < i implies handle_views(stale@)[j]
                        == closing_handles(start.connections, views.take(i + 1))[j] by {
                        assert(stale@[j] == before[j]);
                        assert(handle_views(before)[j] == closing_handles(
                            start.connections,
                            done,
                        )[j]);
                    }
                }
            }
            i += 1;
        }
        assert(views.take(keys@.len() as int) =~= views);
        stale
    }

    /// Has every connection serve its new settings. Gives back the messages to the
    /// servers.
    fn store_settings(&mut self, configs: &Table<ConnectionKey, Option<BridgeServerConfig>>) -> (pushes:
        Vec<SettingsPush>)
        requires
            old(self).wf(),
            configs.wf(),
            forall|key: KeyView| #[trigger]
                old(self)@.connections.contains_key(key) ==> configs@.contains_key(key),
        ensures
            final(self).wf(),
            final(self).order() == old(self).order(),
            final(self)@ == settings_stored(old(self)@, answers_of(configs@)),
            push_views(pushes@) == pushes_to(
                old(self)@.connections,
                answers_of(configs@),
                old(self).order().filter(
                    to_be_told(old(self)@.connections, answers_of(configs@)),
                ),
            ),
    {
        let ghost start = self.connections@;
        let ghost order = self.connections.keys();
        let ghost next = self.connections.next_id();
        let ghost rest = *self;
        let ghost answers = answers_of(configs@);
        let ghost keep = to_be_told(start, answers);
        let mut pushes: Vec<SettingsPush> = Vec::new();
        let mut i: usize = 0;
        proof {
            reveal(Seq::filter);
            self.connections.lemma_keys();
            assert(self.connections@ =~= partly_stored(start, answers, order.take(0)));
            assert(push_views(pushes@) =~= pushes_to(start, answers, order.take(0).filter(keep)));
        }
        while i < self.connections.len()
            invariant
                self.wf(),
                configs.wf(),
                order == self.connections.keys(),
                order.no_duplicates(),
                forall|key: KeyView| start.contains_key(key) <==> #[trigger] order.contains(key),
                forall|key: KeyView| #[trigger]
                    start.contains_key(key) ==> configs@.contains_key(key),
                answers == answers_of(configs@),
                keep == to_be_told(start, answers),
                i <= order.len(),
                self.connections@ == partly_stored(start, answers, order.take(i as int)),
                self.connections.next_id() == next,
                self@ == (PoolView { connections: self.connections@, ..rest@ }),
                rest@.connections == start,
                rest@.next_handle == next,
                push_views(pushes@) == pushes_to(
                    start,
                    answers,
                    order.take(i as int).filter(keep),
                ),
            decreases order.len() - i,
        {
            let ghost key = order[i as int];
            let ghost done = order.take(i as int);
            proof {
                assert(order.contains(key));
                assert(start.contains_key(key));
                assert(configs@.contains_key(key));
                assert(!done.contains(key)) by {
                    if done.contains(key) {
                        let j = choose|j: int| 0 <= j < done.len() && done[j] == key;
                        assert(order[j] == order[i as int]);
                    }
                }
                assert(order.take(i + 1) =~= done.push(key));
                done.lemma_filter_push(key, keep);
                assert forall|other: KeyView| #[trigger]
                    order.take(i + 1).contains(other) == (done.contains(other) || other == key) by {
                    crate::seqs::lemma_push_contains(done, key, other);
                }
            }
            let handle = self.connections.handle_at_mut(i);
            let settings = match configs.get(handle.key()) {
                Some(Some(config)) => copy_json(&config.settings),
                _ => None,
            };
            assert(settings == new_settings(answers[key]));
            let changed = !same_json(handle.current_settings(), &settings);
            if changed && matches!(handle.state(), ConnectionState::Ready) {
                let push = SettingsPush {
                    target: ConnectionRef { key: handle.key().clone(), id: handle.id() },
                    settings: copy_json(&settings),
                };
                let ghost before = pushes@;
                pushes.push(push);
                proof {
                    assert(push_views(pushes@) =~= push_views(before).push(push@));
                    assert(pushes_to(start, answers, done.filter(keep).push(key)) =~= pushes_to(
                        start,
                        answers,
                        done.filter(keep),
                    ).push(push@));
                }
            }
            if changed {
                handle.store_settings(settings);
            }
            assert(self.connections@ =~= partly_stored(start, answers, order.take(i + 1)));
            i += 1;
        }
        proof {
            assert(order.take(order.len() as int) =~= order);
            assert(self.connections@ =~= settings_stored(old(self)@, answers).connections);
            assert(self@ =~= settings_stored(old(self)@, answers));
        }
        pushes
    }

    /// Takes over what the new configuration says of the server of each
    /// connection.
    pub fn reconfigure(&mut self, configs: &Table<ConnectionKey, Option<BridgeServerConfig>>) -> (plan:
        SettingsPlan)
        requires
            old(self).wf(),
            configs.wf(),
            forall|key: KeyView| #[trigger]
                old(self)@.connections.contains_key(key) ==> configs@.contains_key(key),
        ensures
            final(self).wf(),
            is_reconfigured(
                old(self)@,
                old(self).order(),
                answers_of(configs@),
                final(self)@,
                final(self).order(),
                plan,
            ),
    {
        let keys = self.outdated_keys(configs);
        let ghost order = self.order();
        let ghost answers = answers_of(configs@);
        let ghost gone = key_views(keys@);
        proof {
            self.connections.lemma_keys();
            crate::seqs::lemma_filter_no_duplicates(order, outdated(self@.connections, answers));
            crate::seqs::lemma_filter_members(order, outdated(self@.connections, answers));
            assert forall|i: int| 0 <= i < keys@.len() implies self@.connections.contains_key(
                #[trigger] gone[i],
            ) by {
                assert(gone.contains(gone[i]));
                assert(order.contains(gone[i]));
            }
        }
        let stale = self.take_all_out(&keys);
        proof {
            lemma_all_taken_out(old(self)@, gone);
            assert forall|key: KeyView| #[trigger]
                self@.connections.contains_key(key) implies configs@.contains_key(key) by {
                assert(old(self)@.connections.contains_key(key));
            }
        }
        let pushes = self.store_settings(configs);
        SettingsPlan { stale, pushes }
    }

    /// Takes over a changed configuration. `resolve` says how a server is
    /// configured now. Connections whose server needs a new process are taken out
    /// to be shut down; the others serve their new settings, and those that are
    /// ready are told where something changed.
    pub fn propagate_settings<F: Fn(&str) -> Option<BridgeServerConfig>>(&mut self, resolve: F) -> (plan:
        SettingsPlan)
        requires
            old(self).wf(),
            forall|name: &str| call_requires(resolve, (name,)),
        ensures
            final(self).wf(),
            exists|answers: Map<KeyView, Option<AnswerView>>| #[trigger]
                answered_by(resolve, old(self)@.connections, answers) && is_reconfigured(
                    old(self)@,
                    old(self).order(),
                    answers,
                    final(self)@,
                    final(self).order(),
                    plan,
                ),
    {
        let mut configs: Table<ConnectionKey, Option<BridgeServerConfig>> = Table::new();
        let ghost order = self.connections.keys();
        let ghost connections = self.connections@;
        let mut i: usize = 0;
        while i < self.connections.len()
            invariant
                self.wf(),
                *self == *old(self),
                order == self.connections.keys(),
                connections == self.connections@,
                configs.wf(),
                i <= order.len(),
                forall|name: &str| call_requires(resolve, (name,)),
                forall|j: int|
                    0 <= j < i ==> configs@.contains_key(#[trigger] order[j]) && exists|
                        name: &str,
                        config: Option<BridgeServerConfig>,
                    |
                        name@ == order[j].server && #[trigger] call_ensures(
                            resolve,
                            (name,),
                            config,
                        ) && configs@[order[j]] == config,
            decreases order.len() - i,
        {
            let handle = self.connections.handle_at(i);
            let config = resolve(handle.key().server());
            let ghost before = configs@;
            configs.insert(handle.key().clone(), config);
            proof {
                self.connections.lemma_keys();
                assert forall|j: int| 0 <= j < i + 1 implies configs@.contains_key(
                    #[trigger] order[j],
                ) && exists|name: &str, config: Option<BridgeServerConfig>|
                    name@ == order[j].server && #[trigger] call_ensures(resolve, (name,), config)
                        && configs@[order[j]] == config by {
                    if j < i {
                        assert(order[j] != order[i as int]);
                        assert(configs@[order[j]] == before[order[j]]);
                    }
                }
            }
            i += 1;
        }
        proof {
            self.connections.lemma_keys();
            assert forall|key: KeyView| #[trigger]
                connections.contains_key(key) implies configs@.contains_key(key) by {
                assert(order.contains(key));
                let j = choose|j: int| 0 <= j < order.len() && order[j] == key;
                assert(configs@.contains_key(order[j]));
            }
            assert(answered_by(resolve, connections, answers_of(configs@))) by {
                assert forall|key: KeyView| #[trigger]
                    connections.contains_key(key) implies answers_of(configs@).contains_key(key)
                    && exists|name: &str, config: Option<BridgeServerConfig>|
                    name@ == key.server && #[trigger] call_ensures(resolve, (name,), config)
                        && answers_of(configs@)[key] == answer_of(config) by {
                    assert(order.contains(key));
                    let j = choose|j: int| 0 <= j < order.len() && order[j] == key;
                    assert(configs@.contains_key(order[j]));
                }
            }
        }
        self.reconfigure(&configs)
    }
}

/// How many messages were queued.
pub open spec fn queued_count(results: Seq<NotificationSendResult>) -> nat
    decreases results.len(),
{
    if results.len() == 0 {
        0
    } else {
        queued_count(results.drop_last()) + if results.last() is Queued {
            1nat
        } else {
            0nat
        }
    }
}

/// How many servers were told of their settings: those whose message was queued.
pub fn count_pushed(results: &Vec<NotificationSendResult>) -> (pushed: usize)
    ensures
        pushed == queued_count(results@),
{
    let mut pushed: usize = 0;
    let mut i: usize = 0;
    while i < results.len()
        invariant
            i <= results@.len(),
            pushed <= i,
            pushed == queued_count(results@.take(i as int)),
        decreases results@.len() - i,
    {
        assert(results@.take(i + 1).drop_last() =~= results@.take(i as int));
        if matches!(results[i], NotificationSendResult::Queued) {
            pushed += 1;
        }
        i += 1;
    }
    assert(results@.take(results@.len() as int) =~= results@);
    pushed
}

/// A configuration that changes nothing is taken over in silence: no connection
/// is taken out, none is told anything, and the pool stays as it is.
pub proof fn unchanged_configurations_are_silent(
    pool: PoolView,
    order: Seq<KeyView>,
    answers: Map<KeyView, Option<AnswerView>>,
)
    requires
        forall|i: int| 0 <= i < order.len() ==> pool.connections.contains_key(#[trigger] order[i]),
        forall|key: KeyView| #[trigger]
            pool.connections.contains_key(key) ==> !is_outdated(
                pool.connections[key],
                answers[key],
            ) && pool.connections[key].settings == new_settings(answers[key]),
    ensures
        order.filter(outdated(pool.connections, answers)).len() == 0,
        order.filter(to_be_told(pool.connections, answers)).len() == 0,
        settings_stored(pool, answers) == pool,
{
    crate::seqs::lemma_filter_members(order, outdated(pool.connections, answers));
    crate::seqs::lemma_filter_members(order, to_be_told(pool.connections, answers));
    let gone = order.filter(outdated(pool.connections, answers));
    let told = order.filter(to_be_told(pool.connections, answers));
    if gone.len() > 0 {
        assert(gone.contains(gone[0]));
        assert(order.contains(gone[0]));
        assert(pool.connections.contains_key(gone[0]));
    }
    if told.len() > 0 {
        assert(told.contains(told[0]));
        assert(order.contains(told[0]));
        assert(pool.connections.contains_key(told[0]));
    }
    assert(settings_stored(pool, answers) =~= pool);
}

/// After a configuration was taken over, no connection that cannot go on is left,
/// every other one is still there, and all serve their new settings.
pub proof fn configurations_take_effect(
    pool: PoolView,
    order: Seq<KeyView>,
    answers: Map<KeyView, Option<AnswerView>>,
    key: KeyView,
)
    requires
        forall|k: KeyView| pool.connections.contains_key(k) <==> #[trigger] order.contains(k),
    ensures
        ({
            let gone = order.filter(outdated(pool.connections, answers));
            let after = settings_stored(all_taken_out(pool, gone), answers);
            &&& after.connections.contains_key(key) <==> pool.connections.contains_key(key)
                && !is_outdated(pool.connections[key], answers[key])
            &&& after.connections.contains_key(key) ==> after.connections[key] == (HandleView {
                settings: new_settings(answers[key]),
                ..pool.connections[key]
            })
            &&& after.connections.contains_key(key) ==> !is_outdated(
                after.connections[key],
                answers[key],
            ) && !to_be_told(after.connections, answers)(key)
        }),
{
    let gone = order.filter(outdated(pool.connections, answers));
    crate::seqs::lemma_filter_members(order, outdated(pool.connections, answers));
    lemma_all_taken_out(pool, gone);
    assert(order.contains(key) == pool.connections.contains_key(key));
}

/// A connection cannot go on exactly where its server is not configured any more or
/// any part that it was started with is another one now. One that does not remember
/// how it was started goes on.
pub proof fn changed_parts_make_outdated(
    handle: HandleView,
    old_config: BridgeServerConfig,
    new_config: BridgeServerConfig,
)
    ensures
        handle.launch is None ==> !is_outdated(handle, answer_of(Some(new_config)))
            && !is_outdated(handle, None),
        handle.launch is Some ==> is_outdated(handle, None),
        answer_of(None) is None,
        handle.launch == Some(old_config.launch()) ==> (is_outdated(
            handle,
            answer_of(Some(new_config)),
        ) <==> !{
            &&& texts(old_config.cmd@) == texts(new_config.cmd@)
            &&& texts(old_config.languages@) == texts(new_config.languages@)
            &&& old_config.initialization_options == new_config.initialization_options
            &&& (match (old_config.workspace_markers, new_config.workspace_markers) {
                (Some(mine), Some(theirs)) => texts(mine@) == texts(theirs@),
                (None, None) => true,
                _ => false,
            })
            &&& (match (
                old_config.on_type_formatting_triggers,
                new_config.on_type_formatting_triggers,
            ) {
                (Some(mine), Some(theirs)) => texts(mine@) == texts(theirs@),
                (None, None) => true,
                _ => false,
            })
            &&& (old_config.prefer_shared_instance == Some(true)) == (
            new_config.prefer_shared_instance == Some(true))
            &&& (old_config.enabled == Some(false)) == (new_config.enabled == Some(false))
        }),
{
    launches_agree_in_every_part(old_config, new_config);
}

/// A server is told of its settings exactly where it is ready and serves others than
/// the new configuration has for it, and it is told of those.
pub proof fn changed_settings_are_told(
    connections: Map<KeyView, HandleView>,
    answers: Map<KeyView, Option<AnswerView>>,
    order: Seq<KeyView>,
    key: KeyView,
    config: BridgeServerConfig,
)
    requires
        answers[key] == answer_of(Some(config)),
    ensures
        ({
            let told = order.filter(to_be_told(connections, answers));
            let pushes = pushes_to(connections, answers, told);
            let push = PushView {
                target: RefView { key, id: connections[key].id },
                settings: config.settings,
            };
            &&& pushes.contains(push) <==> order.contains(key) && connections[key].state is Ready
                && connections[key].settings != config.settings
            &&& pushes.len() == told.len()
        }),
        new_settings(answer_of(Some(config))) == config.settings,
        new_settings(None) is None,
{
    let keep = to_be_told(connections, answers);
    let told = order.filter(keep);
    let pushes = pushes_to(connections, answers, told);
    let push = PushView {
        target: RefView { key, id: connections[key].id },
        settings: config.settings,
    };
    crate::seqs::lemma_filter_members(order, keep);
    if told.contains(key) {
        let i = choose|i: int| 0 <= i < told.len() && told[i] == key;
        assert(pushes[i] == push);
    }
    if pushes.contains(push) {
        let i = choose|i: int| 0 <= i < pushes.len() && pushes[i] == push;
        assert(told[i] == key);
        assert(told.contains(told[i]));
    }
}

/// Storing settings changes what the connections serve and nothing else about them
/// or the pool.
pub proof fn storing_settings_changes_nothing_else(
    pool: PoolView,
    answers: Map<KeyView, Option<AnswerView>>,
    key: KeyView,
)
    ensures
        ({
            let after = settings_stored(pool, answers);
            &&& after.connections.contains_key(key) == pool.connections.contains_key(key)
            &&& pool.connections.contains_key(key) ==> after.connections[key] == (HandleView {
                settings: after.connections[key].settings,
                ..pool.connections[key]
            })
            &&& after == (PoolView { connections: after.connections, ..pool })
        }),
{
}

/// The connections that are taken out are handed over as they were, each being shut
/// down.
pub proof fn outdated_connections_are_handed_over(
    connections: Map<KeyView, HandleView>,
    keys: Seq<KeyView>,
    i: int,
)
    ensures
        closing_handles(connections, keys).len() == keys.len(),
        0 <= i < keys.len() ==> closing_handles(connections, keys)[i] == (HandleView {
            state: ConnectionState::Closing,
            ..connections[keys[i]]
        }),
{
}

/// The servers that count as told are those whose message was queued.
pub proof fn queued_messages_are_counted(results: Seq<NotificationSendResult>)
    ensures
        queued_count(results) == results.filter(
            |result: NotificationSendResult| result is Queued,
        ).len(),
    decreases results.len(),
{
    reveal(Seq::filter);
    if results.len() > 0 {
        queued_messages_are_counted(results.drop_last());
    }
}

/// A message about settings is its connection and the settings, an answer is all that
/// the configuration says, and lists have the content of each of their entries.
pub proof fn messages_say_every_part(
    one: SettingsPush,
    two: SettingsPush,
    list: Seq<SettingsPush>,
    handles: Seq<ConnectionHandle>,
    config: BridgeServerConfig,
    i: int,
)
    ensures
        one@ == two@ <==> one.target@ == two.target@ && one.settings == two.settings,
        push_views(list).len() == list.len(),
        0 <= i < list.len() ==> push_views(list)[i] == list[i]@,
        handle_views(handles).len() == handles.len(),
        0 <= i < handles.len() ==> handle_views(handles)[i] == handles[i]@,
        answer_of(Some(config)) == Some(
            AnswerView { launch: config.launch(), settings: config.settings },
        ),
{
}

} // verus!

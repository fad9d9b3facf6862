//! The servers that run: one for each project and language.

use crate::error::BrokerError;
use crate::path::{components, same_path};
use crate::session::ClientId;
use crate::text::{same_text, texts};
use vstd::prelude::*;

verus! {

/// A server of the project in `root`.
pub struct ServerSlot<S> {
    /// The root of the project.
    pub root: String,
    /// The language.
    pub language: String,
    /// The server.
    pub server: S,
}

/// What tells one server from another: the components of the root of its project, and its
/// language.
pub type ServerKey = (Seq<Seq<char>>, Seq<char>);

/// The key for the project in `root` and `language`.
pub open spec fn key_of(root: Seq<char>, language: Seq<char>) -> ServerKey {
    (components(root), language)
}

impl<S> ServerSlot<S> {
    /// The key of the server.
    pub open spec fn key(self) -> ServerKey {
        key_of(self.root@, self.language@)
    }
}

/// The servers that run, and the number of the next connection.
pub struct Multiplexer<S> {
    /// The servers.
    pub servers: Vec<ServerSlot<S>>,
    /// The number of the next connection.
    pub next_client_id: ClientId,
}

/// Whether no two of `slots` have the same key.
pub open spec fn distinct<S>(slots: Seq<ServerSlot<S>>) -> bool {
    forall|i: int, j: int|
        0 <= i < j < slots.len() ==> (#[trigger] slots[i]).key() != (#[trigger] slots[j]).key()
}

/// Whether `slots` hold a server with the key `key`.
pub open spec fn runs<S>(slots: Seq<ServerSlot<S>>, key: ServerKey) -> bool {
    exists|i: int| 0 <= i < slots.len() && (#[trigger] slots[i]).key() == key
}

/// What to do to get a server.
pub enum Lookup<'a, S> {
    /// It runs.
    Running(&'a S),
    /// Start this program with these arguments, in the root of the project.
    Start { program: String, arguments: Vec<String> },
}

impl<S> Multiplexer<S> {
    /// Whether there is at most one server for each key, and connections are numbered from one.
    pub open spec fn well_formed(self) -> bool {
        distinct(self.servers@) && self.next_client_id > 0
    }

    /// No servers and no connections.
    pub fn new() -> (r: Self)
        ensures
            r.well_formed(),
            r.servers@ == Seq::<ServerSlot<S>>::empty(),
            r.next_client_id == 1,
    {
        Multiplexer { servers: Vec::new(), next_client_id: 1 }
    }

    /// The place of the server for the project in `root` and `language`.
    fn find(&self, root: &str, language: &str) -> (r: Option<usize>)
        ensures
            match r {
                Some(i) => i < self.servers@.len() && self.servers@[i as int].key() == key_of(
                    root@,
                    language@,
                ),
                None => !runs(self.servers@, key_of(root@, language@)),
            },
    {
        for i in 0..self.servers.len()
            invariant
                forall|k: int|
                    0 <= k < i ==> (#[trigger] self.servers@[k]).key() != key_of(root@, language@),
        {
            let slot = &self.servers[i];
            if same_text(slot.language.as_str(), language) && same_path(slot.root.as_str(), root) {
                return Some(i);
            }
        }
        None
    }

    /// How to get the server for the project in `root` and `language`: the one that runs, or
    /// else one that `command` starts.
    pub fn get_or_spawn_server(&self, root: &str, language: &str, command: &Vec<String>) -> (r:
        Result<Lookup<S>, BrokerError>)
        ensures
            if runs(self.servers@, key_of(root@, language@)) {
                r matches Ok(Lookup::Running(server)) && exists|i: int|
                    0 <= i < self.servers@.len() && (#[trigger] self.servers@[i]).key() == key_of(
                        root@,
                        language@,
                    ) && self.servers@[i].server == *server
            } else if command@.len() == 0 {
                r matches Err(BrokerError::NoCommand)
            } else {
                r matches Ok(Lookup::Start { program, arguments }) && program@ == command@[0]@
                    && texts(arguments@) == texts(command@).skip(1)
            },
            r matches Ok(Lookup::Running(server)) ==> exists|i: int|
                0 <= i < self.servers@.len() && (#[trigger] self.servers@[i]).server == *server
                    && components(self.servers@[i].root@) == components(root@)
                    && self.servers@[i].language@ == language@,
            r matches Ok(Lookup::Start { program, arguments }) ==> arguments@.len() + 1
                == command@.len() && (forall|k: int|
                0 <= k < arguments@.len() ==> (#[trigger] arguments@[k])@ == command@[k + 1]@) && (
            forall|i: int|
                0 <= i < self.servers@.len() ==> components((#[trigger] self.servers@[i]).root@)
                    != components(root@) || self.servers@[i].language@ != language@),
    {
        if let Some(i) = self.find(root, language) {
            assert(runs(self.servers@, key_of(root@, language@)));
            return Ok(Lookup::Running(&self.servers[i].server));
        }
        if command.len() == 0 {
            return Err(BrokerError::NoCommand);
        }
        let program = command[0].clone();
        let mut arguments: Vec<String> = Vec::new();
        for i in 1..command.len()
            invariant
                arguments@.len() == i - 1,
                forall|k: int| 0 <= k < i - 1 ==> (#[trigger] arguments@[k])@ == command@[k + 1]@,
        {
            arguments.push(command[i].clone());
        }
        assert(texts(arguments@) =~= texts(command@).skip(1));
        Ok(Lookup::Start { program, arguments })
    }

    /// Adds a server that was started for the project in `root` and `language`.
    pub fn add_server(&mut self, root: String, language: String, server: S)
        requires
            old(self).well_formed(),
            !runs(old(self).servers@, key_of(root@, language@)),
        ensures
            final(self).well_formed(),
            final(self).servers@ == old(self).servers@.push(ServerSlot { root, language, server }),
            final(self).next_client_id == old(self).next_client_id,
    {
        self.servers.push(ServerSlot { root, language, server });
    }

    /// The number for a new connection.
    pub fn get_client_id(&mut self) -> (r: ClientId)
        requires
            old(self).next_client_id < usize::MAX,
        ensures
            r == old(self).next_client_id,
            final(self).next_client_id == r + 1,
            old(self).well_formed() ==> final(self).well_formed(),
            final(self).servers@ == old(self).servers@,
    {
        let id: ClientId = self.next_client_id;
        self.next_client_id = id + 1;
        id
    }

    /// Removes the servers that were stopped: those whose place in `stopped` says so.
    pub fn remove_stopped(&mut self, stopped: &Vec<bool>)
        requires
            stopped@.len() == old(self).servers@.len(),
        ensures
            final(self).servers@ == kept(old(self).servers@, stopped@),
            final(self).next_client_id == old(self).next_client_id,
            old(self).well_formed() ==> final(self).well_formed(),
    {
        let ghost all = self.servers@;
        let n: usize = stopped.len();
        let mut i: usize = n;
        assert(all.take(n as int) + kept(all.skip(n as int), stopped@.skip(n as int)) =~= all);
        while i > 0
            invariant
                n == stopped@.len(),
                n == all.len(),
                i <= n,
                self.servers@ == all.take(i as int) + kept(
                    all.skip(i as int),
                    stopped@.skip(i as int),
                ),
                self.next_client_id == old(self).next_client_id,
            decreases i,
        {
            let ghost tail = kept(all.skip(i as int), stopped@.skip(i as int));
            i = i - 1;
            assert(all.skip(i as int).drop_first() == all.skip(i + 1));
            assert(stopped@.skip(i as int).drop_first() == stopped@.skip(i + 1));
            if stopped[i] {
                self.servers.remove(i);
                assert(self.servers@ =~= all.take(i as int) + tail);
            } else {
                assert(all.take(i + 1) + tail =~= all.take(i as int) + (seq![all[i as int]]
                    + tail));
            }
        }
        assert(all.skip(0) == all && stopped@.skip(0) == stopped@);
        assert(self.servers@ =~= kept(all, stopped@));
        proof {
            law_the_others_are_kept(all, stopped@);
        }
    }
}

/// Those of `slots` whose place in `stopped` does not say that they were stopped, in order.
pub open spec fn kept<S>(slots: Seq<ServerSlot<S>>, stopped: Seq<bool>) -> Seq<ServerSlot<S>>
    decreases slots.len(),
{
    if slots.len() == 0 || stopped.len() == 0 {
        Seq::empty()
    } else {
        let rest = kept(slots.drop_first(), stopped.drop_first());
        if stopped[0] {
            rest
        } else {
            seq![slots[0]] + rest
        }
    }
}

/// Once a server was added for a project and a language it is the one that is found for them,
/// however the root of the project is written, and no other may be added.
pub proof fn law_one_server_for_each_project_and_language<S>(
    slots: Seq<ServerSlot<S>>,
    slot: ServerSlot<S>,
    root: Seq<char>,
    i: int,
)
    requires
        distinct(slots),
        !runs(slots, slot.key()),
        components(root) == components(slot.root@),
        0 <= i <= slots.len(),
        slots.push(slot)[i].key() == key_of(root, slot.language@),
    ensures
        distinct(slots.push(slot)),
        runs(slots.push(slot), key_of(root, slot.language@)),
        i == slots.len(),
        slots.push(slot)[i].server == slot.server,
{
    let all = slots.push(slot);
    assert(all[slots.len() as int].key() == slot.key());
    if i < slots.len() {
        assert(slots[i].key() == slot.key());
    }
}

/// Two servers have the same key exactly where they are for the same language and the roots of
/// their projects have the same components.
pub proof fn law_keys_tell_projects_apart(
    root: Seq<char>,
    language: Seq<char>,
    other_root: Seq<char>,
    other_language: Seq<char>,
)
    ensures
        key_of(root, language) == key_of(other_root, other_language) <==> components(root)
            == components(other_root) && language == other_language,
{
}

/// A server runs for a project and a language exactly where one of the servers was added for a
/// root with the same components and for the same language.
pub proof fn law_servers_run_for_what_they_were_added_for<S>(
    slots: Seq<ServerSlot<S>>,
    root: Seq<char>,
    language: Seq<char>,
)
    ensures
        runs(slots, key_of(root, language)) <==> exists|i: int|
            0 <= i < slots.len() && components((#[trigger] slots[i]).root@) == components(root)
                && slots[i].language@ == language,
        distinct(slots) <==> forall|i: int, j: int|
            0 <= i < j < slots.len() ==> components((#[trigger] slots[i]).root@) != components(
                (#[trigger] slots[j]).root@,
            ) || slots[i].language@ != slots[j].language@,
{
    if runs(slots, key_of(root, language)) {
        let i = choose|i: int|
            0 <= i < slots.len() && (#[trigger] slots[i]).key() == key_of(root, language);
        assert(components(slots[i].root@) == components(root));
    }
    if exists|i: int|
        0 <= i < slots.len() && components((#[trigger] slots[i]).root@) == components(root)
            && slots[i].language@ == language {
        let i = choose|i: int|
            0 <= i < slots.len() && components((#[trigger] slots[i]).root@) == components(root)
                && slots[i].language@ == language;
        assert(slots[i].key() == key_of(root, language));
    }
    if distinct(slots) {
        assert forall|i: int, j: int| 0 <= i < j < slots.len() implies components(
            (#[trigger] slots[i]).root@,
        ) != components((#[trigger] slots[j]).root@) || slots[i].language@
            != slots[j].language@ by {
            assert(slots[i].key() != slots[j].key());
        }
    }
}

/// A server that was added for one project and language is not handed out for another: whether
/// one runs there is as before.
pub proof fn law_other_projects_are_not_served<S>(
    slots: Seq<ServerSlot<S>>,
    slot: ServerSlot<S>,
    root: Seq<char>,
    language: Seq<char>,
)
    requires
        components(root) != components(slot.root@) || language != slot.language@,
    ensures
        runs(slots.push(slot), key_of(root, language)) <==> runs(slots, key_of(root, language)),
{
    let all = slots.push(slot);
    let key = key_of(root, language);
    if runs(all, key) {
        let i = choose|i: int| 0 <= i < all.len() && (#[trigger] all[i]).key() == key;
        assert(i < slots.len());
        assert(slots[i].key() == key);
    }
    if runs(slots, key) {
        let i = choose|i: int| 0 <= i < slots.len() && (#[trigger] slots[i]).key() == key;
        assert(all[i].key() == key);
    }
}

/// Each server is kept or removed by its own mark, and the order stays.
pub proof fn law_marks_decide<S>(
    slots: Seq<ServerSlot<S>>,
    stopped: Seq<bool>,
    slot: ServerSlot<S>,
    mark: bool,
)
    requires
        slots.len() == stopped.len(),
    ensures
        kept(slots.push(slot), stopped.push(mark)) == if mark {
            kept(slots, stopped)
        } else {
            kept(slots, stopped).push(slot)
        },
        kept(Seq::<ServerSlot<S>>::empty(), Seq::<bool>::empty()) == Seq::<ServerSlot<S>>::empty(),
    decreases slots.len(),
{
    let s = slots.push(slot);
    let t = stopped.push(mark);
    if slots.len() == 0 {
        assert(s.drop_first() =~= Seq::<ServerSlot<S>>::empty());
        assert(kept(s.drop_first(), t.drop_first()) =~= Seq::<ServerSlot<S>>::empty());
        assert(kept(slots, stopped) =~= Seq::<ServerSlot<S>>::empty());
        assert(s[0] == slot && t[0] == mark);
        assert(kept(s, t) =~= if mark {
            kept(slots, stopped)
        } else {
            kept(slots, stopped).push(slot)
        });
    } else {
        law_marks_decide(slots.drop_first(), stopped.drop_first(), slot, mark);
        assert(s.drop_first() =~= slots.drop_first().push(slot));
        assert(t.drop_first() =~= stopped.drop_first().push(mark));
        assert(s[0] == slots[0] && t[0] == stopped[0]);
        assert(kept(s, t) =~= if mark {
            kept(slots, stopped)
        } else {
            kept(slots, stopped).push(slot)
        });
    }
}

/// Removing stopped servers keeps exactly the others, and there is still at most one server for
/// each project and language.
pub proof fn law_the_others_are_kept<S>(slots: Seq<ServerSlot<S>>, stopped: Seq<bool>)
    requires
        slots.len() == stopped.len(),
    ensures
        forall|i: int|
            0 <= i < slots.len() && !stopped[i] ==> kept(slots, stopped).contains(
                #[trigger] slots[i],
            ),
        forall|k: int|
            0 <= k < kept(slots, stopped).len() ==> exists|i: int|
                0 <= i < slots.len() && !stopped[i] && #[trigger] slots[i] == (
                #[trigger] kept(slots, stopped)[k]),
        distinct(slots) ==> distinct(kept(slots, stopped)),
    decreases slots.len(),
{
    if slots.len() > 0 {
        let s = slots.drop_first();
        let t = stopped.drop_first();
        let rest = kept(s, t);
        let all = kept(slots, stopped);
        law_the_others_are_kept(s, t);
        assert forall|i: int| 0 <= i < slots.len() && !stopped[i] implies all.contains(
            #[trigger] slots[i],
        ) by {
            if i > 0 {
                assert(s[i - 1] == slots[i] && !t[i - 1]);
                let k = choose|k: int| 0 <= k < rest.len() && rest[k] == slots[i];
                if stopped[0] {
                    assert(all[k] == slots[i]);
                } else {
                    assert(all[k + 1] == slots[i]);
                }
            } else {
                assert(all[0] == slots[0]);
            }
        }
        assert forall|k: int| 0 <= k < all.len() implies exists|i: int|
            0 <= i < slots.len() && !stopped[i] && #[trigger] slots[i] == (#[trigger] all[k]) by {
            if !stopped[0] && k == 0 {
                assert(slots[0] == all[0]);
            } else {
                let r = if stopped[0] {
                    k
                } else {
                    k - 1
                };
                assert(all[k] == rest[r]);
                let i = choose|i: int|
                    0 <= i < s.len() && !t[i] && #[trigger] s[i] == (#[trigger] rest[r]);
                assert(slots[i + 1] == all[k] && !stopped[i + 1]);
            }
        }
        if distinct(slots) {
            assert forall|i: int, j: int| 0 <= i < j < s.len() implies (#[trigger] s[i]).key() != (
            #[trigger] s[j]).key() by {
                assert(slots[i + 1].key() != slots[j + 1].key());
            }
            assert(distinct(rest));
            if !stopped[0] {
                assert forall|i: int, j: int| 0 <= i < j < all.len() implies (
                #[trigger] all[i]).key() != (#[trigger] all[j]).key() by {
                    assert(all[j] == rest[j - 1]);
                    if i == 0 {
                        let w = choose|w: int|
                            0 <= w < s.len() && !t[w] && #[trigger] s[w] == (
                            #[trigger] rest[j - 1]);
                        assert(slots[0].key() != slots[w + 1].key());
                    } else {
                        assert(all[i] == rest[i - 1]);
                    }
                }
            }
        }
    }
}

} // verus!

//! The registry of running instances and the rules that govern their status.
use vstd::prelude::*;
use crate::errors::{status_desc, status_word, ApiError};
use crate::text::{append_comma_separated, append_json_string, chars_of, comma_join, json_string, push_char, trim, trim_chars, is_control, views_of, append_chars};

verus! {

/// The status of an instance.
#[derive(Clone, Copy, PartialEq, Eq, Structural, Debug)]
pub enum InstanceStatus {
    /// no entry in the registry: the instance has not run since the daemon started
    Cold,
    /// the child process was started
    Loading,
    /// the child announced it is ready; it takes commands
    Online,
    /// a stop was sent; no more commands
    Shutdown,
    /// the child exited; its output is kept
    Offline,
}

impl InstanceStatus {
    /// The error for an operation that this status does not admit.
    pub fn to_error(self) -> (r: ApiError)
        ensures
            r == ApiError::BadInstanceStatus(self),
    {
        ApiError::BadInstanceStatus(self)
    }

    /// The status as clients see it: `cold`, `loading`, `online`, `shutdown`, `offline`.
    pub fn word(&self) -> (r: &'static str)
        ensures
            r@ == status_word(*self),
    {
        match self {
            InstanceStatus::Cold => "cold",
            InstanceStatus::Loading => "loading",
            InstanceStatus::Online => "online",
            InstanceStatus::Shutdown => "shutdown",
            InstanceStatus::Offline => "offline",
        }
    }

    /// The description of the status in error bodies.
    pub fn desc(&self) -> (r: &'static str)
        ensures
            r@ == status_desc(*self),
    {
        match self {
            InstanceStatus::Cold => "O save está desligado",
            InstanceStatus::Loading => "O save está ligando",
            InstanceStatus::Online => "O save está ligado",
            InstanceStatus::Shutdown => "O save está desligando",
            InstanceStatus::Offline => "O save está desligado",
        }
    }
}

/// A status in which the child process runs and holds its port.
pub open spec fn is_live(s: InstanceStatus) -> bool {
    s == InstanceStatus::Loading || s == InstanceStatus::Online || s == InstanceStatus::Shutdown
}

/// What the registry keeps of an instance.
#[derive(Clone, Copy, PartialEq, Eq, Structural, Debug)]
pub struct Instance {
    pub status: InstanceStatus,
    /// the port the child was told to listen on
    pub port: u16,
}

/// Index of the last name equal to `k`, or -1.
pub open spec fn name_index(names: Seq<String>, k: Seq<char>) -> int
    decreases names.len(),
{
    if names.len() == 0 {
        -1
    } else if names.last()@ == k {
        names.len() - 1
    } else {
        name_index(names.drop_last(), k)
    }
}

pub open spec fn names_distinct(names: Seq<String>) -> bool {
    forall|a: int, b: int| 0 <= a < b < names.len() ==> names[a]@ != names[b]@
}

proof fn lemma_name_index(names: Seq<String>, k: Seq<char>)
    ensures
        -1 <= name_index(names, k) < names.len(),
        name_index(names, k) >= 0 ==> names[name_index(names, k)]@ == k,
        name_index(names, k) < 0 ==> forall|i: int| 0 <= i < names.len() ==> names[i]@ != k,
        names_distinct(names) ==> forall|i: int| 0 <= i < names.len() && names[i]@ == k ==> name_index(names, k) == i,
    decreases names.len(),
{
    if names.len() > 0 {
        lemma_name_index(names.drop_last(), k);
        assert forall|i: int| 0 <= i < names.len() - 1 implies names.drop_last()[i] == names[i] by {}
    }
}

/// The instances that were started, by save name, with the daemon's shutdown flag and
/// the path of the Java interpreter that starts them.
pub struct Registry {
    names: Vec<String>,
    instances: Vec<Instance>,
    shutdown: bool,
    java: String,
}

/// The admission of `start` for save `k` on `port`: refused while the save's instance
/// has not stopped, and while another live instance holds the port.
pub open spec fn start_admission(m: Map<Seq<char>, Instance>, k: Seq<char>, port: u16) -> Result<(), ApiError> {
    if m.contains_key(k) && m[k].status != InstanceStatus::Offline {
        Err(ApiError::BadInstanceStatus(m[k].status))
    } else if exists|o: Seq<char>| o != k && #[trigger] m.contains_key(o) && m[o].port == port && is_live(m[o].status) {
        Err(ApiError::PortInUse)
    } else {
        Ok(())
    }
}

/// The status of save `k`: `Cold` when the registry has no entry for it.
pub open spec fn status_in(m: Map<Seq<char>, Instance>, k: Seq<char>) -> InstanceStatus {
    if m.contains_key(k) {
        m[k].status
    } else {
        InstanceStatus::Cold
    }
}

/// What `stop` does: `Ok(true)` where `stop` must be written to an online child,
/// `Ok(false)` where a stop is under way; otherwise the status that refuses it.
pub open spec fn stop_admission(m: Map<Seq<char>, Instance>, k: Seq<char>) -> Result<bool, ApiError> {
    match status_in(m, k) {
        InstanceStatus::Online => Ok(true),
        InstanceStatus::Shutdown => Ok(false),
        s => Err(ApiError::BadInstanceStatus(s)),
    }
}

/// The registry once every online instance was told to stop.
pub open spec fn stopping_all(m: Map<Seq<char>, Instance>) -> Map<Seq<char>, Instance> {
    Map::new(
        |k: Seq<char>| m.contains_key(k),
        |k: Seq<char>|
            if m[k].status == InstanceStatus::Online {
                Instance { status: InstanceStatus::Shutdown, port: m[k].port }
            } else {
                m[k]
            },
    )
}

/// The registry once the child of save `k` exited.
pub open spec fn exited(m: Map<Seq<char>, Instance>, k: Seq<char>) -> Map<Seq<char>, Instance> {
    if m.contains_key(k) {
        m.insert(k, Instance { status: InstanceStatus::Offline, port: m[k].port })
    } else {
        m
    }
}

/// Some string of `v` is `k`.
pub open spec fn lists(v: Seq<String>, k: Seq<char>) -> bool {
    exists|j: int| 0 <= j < v.len() && v[j]@ == k
}

pub open spec fn online_before(names: Seq<String>, instances: Seq<Instance>, i: int, k: Seq<char>) -> bool {
    exists|j: int| 0 <= j < i && names[j]@ == k && instances[j].status == InstanceStatus::Online
}

/// What the reader does once a child announced it is ready.
#[derive(Debug, PartialEq, Eq)]
pub enum ReadyAction {
    /// nothing more
    Ignore,
    /// the daemon is shutting down: write `stop` to the child
    SendStop,
    /// the save's entry is gone: stop reading
    EntryGone,
}

impl View for Registry {
    type V = Map<Seq<char>, Instance>;

    closed spec fn view(&self) -> Map<Seq<char>, Instance> {
        Map::new(
            |k: Seq<char>| name_index(self.names@, k) >= 0,
            |k: Seq<char>| self.instances@[name_index(self.names@, k)],
        )
    }
}

impl Registry {
    /// Names in the distinct order of the registry; entries never hold `Cold`.
    pub closed spec fn wf(&self) -> bool {
        &&& self.names@.len() == self.instances@.len()
        &&& names_distinct(self.names@)
        &&& forall|i: int| 0 <= i < self.instances@.len() ==> #[trigger] self.instances@[i].status != InstanceStatus::Cold
    }

    pub closed spec fn is_shutting_down(&self) -> bool {
        self.shutdown
    }

    pub closed spec fn java_path(&self) -> Seq<char> {
        self.java@
    }

    /// The names of the entries, in the registry's order.
    pub closed spec fn order(&self) -> Seq<Seq<char>> {
        self.names@.map_values(|s: String| s@)
    }

    proof fn lemma_view(&self, k: Seq<char>)
        requires
            self.wf(),
        ensures
            self@.contains_key(k) <==> name_index(self.names@, k) >= 0,
            self@.contains_key(k) ==> self@[k] == self.instances@[name_index(self.names@, k)],
            self@.contains_key(k) ==> self@[k].status != InstanceStatus::Cold,
            forall|i: int| 0 <= i < self.names@.len() && self.names@[i]@ == k ==> name_index(self.names@, k) == i,
    {
        lemma_name_index(self.names@, k);
    }

    /// No entry holds `Cold`: that status stands for the absence of an entry.
    pub proof fn lemma_no_cold(&self)
        requires
            self.wf(),
        ensures
            forall|k: Seq<char>| #[trigger] self@.contains_key(k) ==> self@[k].status != InstanceStatus::Cold,
    {
        assert forall|k: Seq<char>| #[trigger] self@.contains_key(k) implies self@[k].status != InstanceStatus::Cold by {
            self.lemma_view(k);
        }
    }

    /// The registry's order holds each key of the registry once, and nothing else.
    pub proof fn lemma_order(&self)
        requires
            self.wf(),
        ensures
            self.order().no_duplicates(),
            forall|k: Seq<char>| #[trigger] self.order().contains(k) == self@.contains_key(k),
    {
        let o = self.order();
        assert forall|a: int, b: int| 0 <= a < o.len() && 0 <= b < o.len() && a != b implies o[a] != o[b] by {
            if a < b {
                assert(self.names@[a]@ != self.names@[b]@);
            } else {
                assert(self.names@[b]@ != self.names@[a]@);
            }
        }
        assert forall|k: Seq<char>| #[trigger] o.contains(k) == self@.contains_key(k) by {
            self.lemma_view(k);
            lemma_name_index(self.names@, k);
            if o.contains(k) {
                let i = choose|i: int| 0 <= i < o.len() && o[i] == k;
                assert(self.names@[i]@ == k);
            }
            if self@.contains_key(k) {
                let i = name_index(self.names@, k);
                assert(o[i] == k);
            }
        }
    }

    /// An empty registry that starts `java` from the path.
    pub fn new() -> (r: Registry)
        ensures
            r.wf(),
            r@ == Map::<Seq<char>, Instance>::empty(),
            r.order() == Seq::<Seq<char>>::empty(),
            !r.is_shutting_down(),
            r.java_path() == "java"@,
    {
        let r = Registry { names: Vec::new(), instances: Vec::new(), shutdown: false, java: String::from_str("java") };
        assert(r@ =~= Map::<Seq<char>, Instance>::empty());
        assert(r.order() =~= Seq::<Seq<char>>::empty());
        r
    }

    fn find(&self, name: &String) -> (r: Option<usize>)
        requires
            self.wf(),
        ensures
            r is None ==> !self@.contains_key(name@),
            r matches Some(i) ==> i < self.names@.len() && self.names@[i as int]@ == name@ && self@.contains_key(name@)
                && self@[name@] == self.instances@[i as int],
    {
        let mut i: usize = 0;
        while i < self.names.len()
            invariant
                self.wf(),
                i <= self.names@.len(),
                forall|j: int| 0 <= j < i ==> self.names@[j]@ != name@,
            decreases self.names@.len() - i,
        {
            if self.names[i] == *name {
                proof {
                    self.lemma_view(name@);
                }
                return Some(i);
            }
            i = i + 1;
        }
        proof {
            self.lemma_view(name@);
            lemma_name_index(self.names@, name@);
            if self@.contains_key(name@) {
                let j = name_index(self.names@, name@);
                assert(self.names@[j]@ == name@);
                assert(0 <= j < i);
            }
        }
        None
    }

    /// The status of save `name`: `Cold` when it has no entry.
    pub fn query(&self, name: &str) -> (r: InstanceStatus)
        requires
            self.wf(),
        ensures
            r == status_in(self@, name@),
            (r == InstanceStatus::Cold) == !self@.contains_key(name@),
    {
        proof {
            self.lemma_view(name@);
        }
        match self.find(&String::from_str(name)) {
            Some(i) => self.instances[i].status,
            None => InstanceStatus::Cold,
        }
    }

    /// Whether save `name` may start on `port`.
    pub fn admit_start(&self, name: &str, port: u16) -> (r: Result<(), ApiError>)
        requires
            self.wf(),
        ensures
            r == start_admission(self@, name@, port),
    {
        let key = String::from_str(name);
        if let Some(i) = self.find(&key) {
            let s = self.instances[i].status;
            if s != InstanceStatus::Offline {
                return Err(s.to_error());
            }
        }
        let mut i: usize = 0;
        while i < self.names.len()
            invariant
                self.wf(),
                i <= self.names@.len(),
                key@ == name@,
                !(self@.contains_key(name@) && self@[name@].status != InstanceStatus::Offline),
                forall|j: int| 0 <= j < i ==> !(self.instances@[j].port == port && is_live(self.instances@[j].status)),
            decreases self.names@.len() - i,
        {
            let e = self.instances[i];
            if e.port == port && (e.status == InstanceStatus::Loading || e.status == InstanceStatus::Online
                || e.status == InstanceStatus::Shutdown) {
                let ghost o = self.names@[i as int]@;
                proof {
                    self.lemma_view(o);
                    if o == name@ {
                        assert(self@[o] == e);
                    }
                    assert(o != name@ && self@.contains_key(o) && self@[o].port == port && is_live(self@[o].status));
                }
                return Err(ApiError::PortInUse);
            }
            i = i + 1;
        }
        proof {
            if exists|o: Seq<char>| o != name@ && #[trigger] self@.contains_key(o) && self@[o].port == port && is_live(self@[o].status) {
                let o = choose|o: Seq<char>| o != name@ && #[trigger] self@.contains_key(o) && self@[o].port == port && is_live(self@[o].status);
                self.lemma_view(o);
                lemma_name_index(self.names@, o);
                let j = name_index(self.names@, o);
                assert(0 <= j < i);
                assert(self@[o] == self.instances@[j]);
                assert(false);
            }
        }
        Ok(())
    }

    /// Records that save `name` started on `port`: its entry, new or replacing a stopped
    /// one, is `Loading`.
    pub fn record_start(&mut self, name: &str, port: u16)
        requires
            old(self).wf(),
        ensures
            final(self).wf(),
            final(self)@ == old(self)@.insert(name@, Instance { status: InstanceStatus::Loading, port }),
            final(self).order() == if old(self)@.contains_key(name@) {
                old(self).order()
            } else {
                old(self).order().push(name@)
            },
            final(self).is_shutting_down() == old(self).is_shutting_down(),
            final(self).java_path() == old(self).java_path(),
    {
        let key = String::from_str(name);
        let e = Instance { status: InstanceStatus::Loading, port };
        let ghost before = self@;
        match self.find(&key) {
            Some(i) => {
                self.instances.set(i, e);
                proof {
                    assert forall|k: Seq<char>| #![auto] self@.contains_key(k) == before.insert(name@, e).contains_key(k)
                        && (self@.contains_key(k) ==> self@[k] == before.insert(name@, e)[k]) by {
                        lemma_name_index(self.names@, k);
                    }
                    assert(self@ =~= before.insert(name@, e));
                }
            },
            None => {
                let ghost old_names = self.names@;
                proof {
                    lemma_name_index(old_names, name@);
                }
                let ghost old_order = self.order();
                self.names.push(key);
                self.instances.push(e);
                assert(self.order() =~= old_order.push(name@));
                proof {
                    assert(self.names@.drop_last() =~= old_names);
                    assert forall|k: Seq<char>| #![auto] self@.contains_key(k) == before.insert(name@, e).contains_key(k)
                        && (self@.contains_key(k) ==> self@[k] == before.insert(name@, e)[k]) by {
                        lemma_name_index(old_names, k);
                        lemma_name_index(self.names@, k);
                    }
                    assert(self@ =~= before.insert(name@, e));
                }
            },
        }
    }

    fn set_status(&mut self, i: usize, status: InstanceStatus)
        requires
            old(self).wf(),
            i < old(self).names@.len(),
            status != InstanceStatus::Cold,
        ensures
            final(self).wf(),
            final(self).names@ == old(self).names@,
            final(self).instances@ == old(self).instances@.update(
                i as int,
                Instance { status, port: old(self).instances@[i as int].port },
            ),
            final(self)@ == old(self)@.insert(
                old(self).names@[i as int]@,
                Instance { status, port: old(self).instances@[i as int].port },
            ),
            final(self).is_shutting_down() == old(self).is_shutting_down(),
            final(self).java_path() == old(self).java_path(),
            final(self).order() == old(self).order(),
    {
        let ghost before = self@;
        let ghost k0 = self.names@[i as int]@;
        let e = Instance { status, port: self.instances[i].port };
        self.instances.set(i, e);
        proof {
            lemma_name_index(self.names@, k0);
            assert forall|k: Seq<char>| #![auto] self@.contains_key(k) == before.insert(k0, e).contains_key(k)
                && (self@.contains_key(k) ==> self@[k] == before.insert(k0, e)[k]) by {
                lemma_name_index(self.names@, k);
            }
            assert(self@ =~= before.insert(k0, e));
        }
    }

    /// What stopping save `name` takes: `Ok(true)` where `stop` must be written to its
    /// child, `Ok(false)` where a stop is already under way.
    pub fn stop_action(&self, name: &str) -> (r: Result<bool, ApiError>)
        requires
            self.wf(),
        ensures
            r == stop_admission(self@, name@),
    {
        match self.query(name) {
            InstanceStatus::Online => Ok(true),
            InstanceStatus::Shutdown => Ok(false),
            s => Err(s.to_error()),
        }
    }

    /// Records that `stop` was written to the child of save `name`: an online instance
    /// is now shutting down.
    pub fn record_stop(&mut self, name: &str)
        requires
            old(self).wf(),
        ensures
            final(self).wf(),
            final(self)@ == if status_in(old(self)@, name@) == InstanceStatus::Online {
                old(self)@.insert(name@, Instance { status: InstanceStatus::Shutdown, port: old(self)@[name@].port })
            } else {
                old(self)@
            },
            final(self).is_shutting_down() == old(self).is_shutting_down(),
            final(self).java_path() == old(self).java_path(),
            final(self).order() == old(self).order(),
    {
        if let Some(i) = self.find(&String::from_str(name)) {
            if self.instances[i].status == InstanceStatus::Online {
                self.set_status(i, InstanceStatus::Shutdown);
            }
        }
    }

    /// Records that the child of save `name` announced it is ready: a loading instance
    /// is now online. Where the daemon is shutting down the child must then be stopped.
    pub fn record_ready(&mut self, name: &str) -> (r: ReadyAction)
        requires
            old(self).wf(),
        ensures
            final(self).wf(),
            final(self).is_shutting_down() == old(self).is_shutting_down(),
            final(self).java_path() == old(self).java_path(),
            final(self).order() == old(self).order(),
            !old(self)@.contains_key(name@) ==> r is EntryGone && final(self)@ == old(self)@,
            status_in(old(self)@, name@) == InstanceStatus::Loading ==> {
                &&& final(self)@ == old(self)@.insert(
                    name@,
                    Instance { status: InstanceStatus::Online, port: old(self)@[name@].port },
                )
                &&& (r is SendStop <==> old(self).is_shutting_down())
                &&& (r is Ignore <==> !old(self).is_shutting_down())
            },
            old(self)@.contains_key(name@) && status_in(old(self)@, name@) != InstanceStatus::Loading ==> r is Ignore
                && final(self)@ == old(self)@,
    {
        match self.find(&String::from_str(name)) {
            None => ReadyAction::EntryGone,
            Some(i) => {
                if self.instances[i].status == InstanceStatus::Loading {
                    self.set_status(i, InstanceStatus::Online);
                    if self.shutdown {
                        ReadyAction::SendStop
                    } else {
                        ReadyAction::Ignore
                    }
                } else {
                    ReadyAction::Ignore
                }
            },
        }
    }

    /// Records that the child of save `name` exited: its entry, if any, is `Offline`.
    pub fn record_exit(&mut self, name: &str)
        requires
            old(self).wf(),
        ensures
            final(self).wf(),
            final(self)@ == exited(old(self)@, name@),
            final(self).is_shutting_down() == old(self).is_shutting_down(),
            final(self).java_path() == old(self).java_path(),
            final(self).order() == old(self).order(),
    {
        if let Some(i) = self.find(&String::from_str(name)) {
            self.set_status(i, InstanceStatus::Offline);
        }
    }

    /// Starts the daemon's shutdown: the flag goes up and every online instance is now
    /// shutting down. Returns the saves whose children must be sent `stop`: those that
    /// were online.
    pub fn shutdown_all(&mut self) -> (r: Vec<String>)
        requires
            old(self).wf(),
        ensures
            final(self).wf(),
            final(self)@ == stopping_all(old(self)@),
            final(self).is_shutting_down(),
            final(self).java_path() == old(self).java_path(),
            final(self).order() == old(self).order(),
            forall|k: Seq<char>| #[trigger] lists(r@, k) <==> (old(self)@.contains_key(k)
                && old(self)@[k].status == InstanceStatus::Online),
    {
        let ghost before = self@;
        self.shutdown = true;
        let mut stopped: Vec<String> = Vec::new();
        let mut i: usize = 0;
        while i < self.names.len()
            invariant
                self.wf(),
                i <= self.names@.len(),
                self.shutdown,
                self.java_path() == old(self).java_path(),
                self.names@ == old(self).names@,
                before == old(self)@,
                old(self).wf(),
                forall|j: int| 0 <= j < self.names@.len() ==> #[trigger] self.instances@[j].port == old(self).instances@[j].port,
                forall|j: int| 0 <= j < i ==> #[trigger] self.instances@[j].status == (if old(self).instances@[j].status == InstanceStatus::Online {
                    InstanceStatus::Shutdown
                } else {
                    old(self).instances@[j].status
                }),
                forall|j: int| i <= j < self.names@.len() ==> #[trigger] self.instances@[j] == old(self).instances@[j],
                forall|k: Seq<char>| #![trigger lists(stopped@, k)] lists(stopped@, k) <==> online_before(self.names@, old(self).instances@, i as int, k),
            decreases self.names@.len() - i,
        {
            if self.instances[i].status == InstanceStatus::Online {
                let ghost s0 = stopped@;
                assert(old(self).instances@[i as int].status == InstanceStatus::Online);
                stopped.push(self.names[i].clone());
                self.set_status(i, InstanceStatus::Shutdown);
                assert forall|k: Seq<char>| #![trigger lists(stopped@, k)] lists(stopped@, k) <==> online_before(self.names@, old(self).instances@, i + 1, k) by {
                    if lists(stopped@, k) {
                        let j = choose|j: int| 0 <= j < stopped@.len() && stopped@[j]@ == k;
                        if j < s0.len() {
                            assert(s0[j]@ == k);
                            assert(lists(s0, k));
                            let w = choose|w: int| 0 <= w < i && self.names@[w]@ == k && old(self).instances@[w].status == InstanceStatus::Online;
                            assert(0 <= w < i + 1);
                        } else {
                            assert(self.names@[i as int]@ == k);
                        }
                    }
                    if online_before(self.names@, old(self).instances@, i + 1, k) {
                        let j = choose|j: int| 0 <= j < i + 1 && self.names@[j]@ == k && old(self).instances@[j].status == InstanceStatus::Online;
                        if j < i {
                            assert(online_before(self.names@, old(self).instances@, i as int, k));
                            assert(lists(s0, k));
                            let j2 = choose|j2: int| 0 <= j2 < s0.len() && s0[j2]@ == k;
                            assert(stopped@[j2]@ == k);
                        } else {
                            assert(stopped@[s0.len() as int]@ == k);
                        }
                    }
                }
            } else {
                assert forall|k: Seq<char>| #![trigger lists(stopped@, k)] lists(stopped@, k) <==> online_before(self.names@, old(self).instances@, i + 1, k) by {
                    if online_before(self.names@, old(self).instances@, i + 1, k) {
                        let j = choose|j: int| 0 <= j < i + 1 && self.names@[j]@ == k && old(self).instances@[j].status == InstanceStatus::Online;
                        assert(j != i);
                        assert(online_before(self.names@, old(self).instances@, i as int, k));
                    }
                    if online_before(self.names@, old(self).instances@, i as int, k) {
                        let j = choose|j: int| 0 <= j < i && self.names@[j]@ == k && old(self).instances@[j].status == InstanceStatus::Online;
                        assert(0 <= j < i + 1);
                    }
                }
            }
            i = i + 1;
        }
        proof {
            assert forall|k: Seq<char>| #![auto] self@.contains_key(k) == stopping_all(before).contains_key(k)
                && (self@.contains_key(k) ==> self@[k] == stopping_all(before)[k]) by {
                lemma_name_index(self.names@, k);
                lemma_name_index(old(self).names@, k);
                old(self).lemma_view(k);
                self.lemma_view(k);
                if self@.contains_key(k) {
                    let j = name_index(self.names@, k);
                    assert(self.instances@[j].port == old(self).instances@[j].port);
                    assert(self.instances@[j].status == (if old(self).instances@[j].status == InstanceStatus::Online {
                        InstanceStatus::Shutdown
                    } else {
                        old(self).instances@[j].status
                    }));
                }
            }
            assert(self@ =~= stopping_all(before));
            assert forall|k: Seq<char>| #![trigger lists(stopped@, k)] lists(stopped@, k) <==> (before.contains_key(k)
                && before[k].status == InstanceStatus::Online) by {
                lemma_name_index(old(self).names@, k);
                old(self).lemma_view(k);
                if exists|j: int| 0 <= j < i && self.names@[j]@ == k && old(self).instances@[j].status == InstanceStatus::Online {
                    let j = choose|j: int| 0 <= j < i && self.names@[j]@ == k && old(self).instances@[j].status == InstanceStatus::Online;
                    assert(name_index(old(self).names@, k) == j);
                }
                if before.contains_key(k) && before[k].status == InstanceStatus::Online {
                    let j = name_index(old(self).names@, k);
                    assert(0 <= j < i && self.names@[j]@ == k && old(self).instances@[j].status == InstanceStatus::Online);
                }
            }
        }
        stopped
    }

    /// Whether save `name` may be modified or deleted: only while no child runs for it.
    pub fn admit_change(&self, name: &str) -> (r: Result<(), ApiError>)
        requires
            self.wf(),
        ensures
            r == match status_in(self@, name@) {
                InstanceStatus::Cold | InstanceStatus::Offline => Ok(()),
                s => Err(ApiError::BadInstanceStatus(s)),
            },
    {
        match self.query(name) {
            InstanceStatus::Cold | InstanceStatus::Offline => Ok(()),
            s => Err(s.to_error()),
        }
    }

    /// The status of every entry as JSON, `{"<name>":"<status>",...}`, in the registry's
    /// order.
    pub fn status_summary(&self) -> (r: String)
        requires
            self.wf(),
        ensures
            r@ == "{"@ + comma_join(self.order().map_values(|k: Seq<char>| summary_member(k, self@[k].status))) + "}"@,
    {
        let mut items: Vec<String> = Vec::new();
        let mut i: usize = 0;
        while i < self.names.len()
            invariant
                self.wf(),
                i <= self.names@.len(),
                items@.len() == i,
                forall|j: int| 0 <= j < i ==> (#[trigger] items@[j])@ == summary_member(self.names@[j]@, self.instances@[j].status),
            decreases self.names@.len() - i,
        {
            let mut item = String::new();
            append_json_string(&mut item, self.names[i].as_str());
            item.append(":");
            append_json_string(&mut item, self.instances[i].status.word());
            items.push(item);
            i = i + 1;
        }
        proof {
            assert forall|j: int| 0 <= j < self.names@.len() implies #[trigger] views_of(items@)[j] == self.order().map_values(
                |k: Seq<char>| summary_member(k, self@[k].status),
            )[j] by {
                self.lemma_view(self.names@[j]@);
            }
            assert(views_of(items@) =~= self.order().map_values(|k: Seq<char>| summary_member(k, self@[k].status)));
        }
        let mut out = String::from_str("{");
        append_comma_separated(&items, &mut out);
        out.append("}");
        out
    }

    /// What a client's command to save `name` comes to: `Stop` for `/stop`, else the
    /// line to write to its child, which must be online.
    pub fn command_action(&self, name: &str, command: &str) -> (r: Result<CommandAction, ApiError>)
        requires
            self.wf(),
        ensures
            match command_outcome(self@, name@, command@) {
                Ok(Some(line)) => r matches Ok(CommandAction::Send(l)) && l@ == line,
                Ok(None) => r matches Ok(CommandAction::Stop),
                Err(e) => r == Err::<CommandAction, ApiError>(e),
            },
    {
        let chars = chars_of(command);
        let mut i: usize = 0;
        while i < chars.len()
            invariant
                i <= chars@.len(),
                chars@ == command@,
                forall|j: int| 0 <= j < i ==> !is_control(#[trigger] chars@[j]),
            decreases chars@.len() - i,
        {
            let c = chars[i];
            if (c as u32) < 32 || c as u32 == 127 {
                assert(is_control(chars@[i as int]));
                return Err(ApiError::BadRequest);
            }
            i = i + 1;
        }
        let t = trim_chars(&chars);
        if t.len() == 5 && t[0] == '/' && t[1] == 's' && t[2] == 't' && t[3] == 'o' && t[4] == 'p' {
            assert(t@ =~= seq!['/', 's', 't', 'o', 'p']);
            return Ok(CommandAction::Stop);
        }
        let status = self.query(name);
        if status != InstanceStatus::Online {
            return Err(status.to_error());
        }
        let mut line = String::new();
        if t.len() > 0 && t[0] == '/' {
            let rest = crate::text::slice_chars(&t, 1, t.len());
            append_chars(&mut line, &rest);
            assert(rest@ =~= t@.drop_first());
        } else {
            line.append("say ");
            append_chars(&mut line, &t);
        }
        push_char(&mut line, '\r');
        push_char(&mut line, '\n');
        assert(line@ =~= command_line(t@));
        Ok(CommandAction::Send(line))
    }
} // impl

/// A status member of the summary: `"<name>":"<status>"`.
pub open spec fn summary_member(k: Seq<char>, s: InstanceStatus) -> Seq<char> {
    json_string(k) + ":"@ + json_string(status_word(s))
}

/// What a client's command asks of an instance.
#[derive(Debug, PartialEq, Eq)]
pub enum CommandAction {
    /// `/stop`: stop the instance
    Stop,
    /// write this line to the child's input
    Send(String),
}

/// The line written for a command: without its leading `/`, or as a chat message.
pub open spec fn command_line(t: Seq<char>) -> Seq<char> {
    (if t.len() > 0 && t[0] == '/' {
        t.drop_first()
    } else {
        "say "@ + t
    }) + seq!['\r', '\n']
}

/// What a command comes to: refused when it holds a control character; `/stop` (after
/// trimming) stops the instance; any other is written to an online instance's child.
pub open spec fn command_outcome(m: Map<Seq<char>, Instance>, name: Seq<char>, command: Seq<char>) -> Result<Option<Seq<char>>, ApiError> {
    if exists|i: int| 0 <= i < command.len() && is_control(#[trigger] command[i]) {
        Err(ApiError::BadRequest)
    } else if trim(command) == seq!['/', 's', 't', 'o', 'p'] {
        Ok(None)
    } else if status_in(m, name) != InstanceStatus::Online {
        Err(ApiError::BadInstanceStatus(status_in(m, name)))
    } else {
        Ok(Some(command_line(trim(command))))
    }
}

/// `needle` occurs in `haystack`.
pub open spec fn occurs_in(haystack: Seq<u8>, needle: Seq<u8>) -> bool {
    exists|i: int| 0 <= i && i + needle.len() <= haystack.len() && #[trigger] haystack.subrange(i, i + needle.len()) == needle
}

/// Whether `needle` occurs in `haystack`; the reader looks for ` Done ` this way.
pub fn bytes_contains(haystack: &[u8], needle: &[u8]) -> (r: bool)
    ensures
        r == occurs_in(haystack@, needle@),
{
    let h = haystack.len();
    let n = needle.len();
    if h < n {
        proof {
            if occurs_in(haystack@, needle@) {
                let i = choose|i: int| 0 <= i && i + needle@.len() <= haystack@.len() && #[trigger] haystack@.subrange(i, i + needle@.len()) == needle@;
            }
        }
        return false;
    }
    let mut i: usize = 0;
    while i <= h - n
        invariant
            n <= h,
            h == haystack@.len(),
            n == needle@.len(),
            i <= h - n + 1,
            forall|j: int| 0 <= j < i ==> #[trigger] haystack@.subrange(j, j + n) != needle@,
        decreases h - n + 1 - i,
    {
        let mut k: usize = 0;
        while k < n && haystack[i + k] == needle[k]
            invariant
                k <= n,
                i + n <= h,
                h == haystack@.len(),
                n == needle@.len(),
                forall|j: int| 0 <= j < k ==> haystack@[i + j] == needle@[j],
            decreases n - k,
        {
            k = k + 1;
        }
        if k == n {
            assert(haystack@.subrange(i as int, i + n) =~= needle@);
            return true;
        }
        assert(haystack@.subrange(i as int, i + n)[k as int] != needle@[k as int]);
        i = i + 1;
    }
    proof {
        if occurs_in(haystack@, needle@) {
            let j = choose|j: int| 0 <= j && j + needle@.len() <= haystack@.len() && #[trigger] haystack@.subrange(j, j + needle@.len()) == needle@;
            assert(j < i);
        }
    }
    false
}

/// Sets the Java interpreter that starts instances.
pub fn set_java_path(registry: &mut Registry, java: String)
    requires
        old(registry).wf(),
    ensures
        final(registry).wf(),
        final(registry)@ == old(registry)@,
        final(registry).java_path() == java@,
        final(registry).is_shutting_down() == old(registry).is_shutting_down(),
        final(registry).order() == old(registry).order(),
{
    registry.java = java;
}

/// The Java interpreter that starts instances.
pub fn get_java_path(registry: &Registry) -> (r: String)
    ensures
        r@ == registry.java_path(),
{
    registry.java.clone()
}

/// Whether the daemon is shutting down.
pub fn is_shutdown(registry: &Registry) -> (r: bool)
    ensures
        r == registry.is_shutting_down(),
{
    registry.shutdown
}

/// Raises the shutdown flag.
pub fn set_shutdown(registry: &mut Registry)
    requires
        old(registry).wf(),
    ensures
        final(registry).wf(),
        final(registry)@ == old(registry)@,
        final(registry).is_shutting_down(),
        final(registry).java_path() == old(registry).java_path(),
        final(registry).order() == old(registry).order(),
{
    registry.shutdown = true;
}

/// Once `start` of a save was admitted and recorded, a second `start` of the same save
/// is refused because the instance is loading: of two starts, exactly one succeeds.
pub proof fn lemma_second_start_refused(m: Map<Seq<char>, Instance>, k: Seq<char>, p1: u16, p2: u16)
    requires
        start_admission(m, k, p1) is Ok,
    ensures
        start_admission(m.insert(k, Instance { status: InstanceStatus::Loading, port: p1 }), k, p2)
            == Err::<(), ApiError>(ApiError::BadInstanceStatus(InstanceStatus::Loading)),
{
}

/// While save `a` is live on port `p`, starting another save `b` on `p` is refused with
/// `PortInUse` (unless `b` itself is live, which is refused first).
pub proof fn lemma_port_in_use(m: Map<Seq<char>, Instance>, a: Seq<char>, b: Seq<char>, p: u16)
    requires
        a != b,
        m.contains_key(a),
        is_live(m[a].status),
        m[a].port == p,
        !m.contains_key(b) || m[b].status == InstanceStatus::Offline,
    ensures
        start_admission(m, b, p) == Err::<(), ApiError>(ApiError::PortInUse),
{
    assert(a != b && m.contains_key(a) && m[a].port == p && is_live(m[a].status));
}

/// The registry once the children of the saves in `ks` exited, in that order.
pub open spec fn all_exited(m: Map<Seq<char>, Instance>, ks: Seq<Seq<char>>) -> Map<Seq<char>, Instance>
    decreases ks.len(),
{
    if ks.len() == 0 {
        m
    } else {
        exited(all_exited(m, ks.drop_last()), ks.last())
    }
}

proof fn lemma_all_exited(m: Map<Seq<char>, Instance>, ks: Seq<Seq<char>>)
    ensures
        all_exited(m, ks).dom() == m.dom(),
        forall|k: Seq<char>| #[trigger] all_exited(m, ks).contains_key(k) && ks.contains(k) ==> all_exited(m, ks)[k].status
            == InstanceStatus::Offline,
        forall|k: Seq<char>| #[trigger] all_exited(m, ks).contains_key(k) && !ks.contains(k) ==> all_exited(m, ks)[k]
            == m[k],
    decreases ks.len(),
{
    if ks.len() > 0 {
        let prev = ks.drop_last();
        lemma_all_exited(m, prev);
        let mp = all_exited(m, prev);
        assert(exited(mp, ks.last()).dom() =~= mp.dom());
        assert forall|k: Seq<char>| #[trigger] all_exited(m, ks).contains_key(k) && ks.contains(k) implies all_exited(
            m,
            ks,
        )[k].status == InstanceStatus::Offline by {
            if k != ks.last() {
                let j = choose|j: int| 0 <= j < ks.len() && ks[j] == k;
                assert(prev[j] == k);
                assert(prev.contains(k));
            }
        }
        assert forall|k: Seq<char>| #[trigger] all_exited(m, ks).contains_key(k) && !ks.contains(k) implies all_exited(m, ks)[k]
            == m[k] by {
            assert(k != ks.last());
            if prev.contains(k) {
                let j = choose|j: int| 0 <= j < prev.len() && prev[j] == k;
                assert(ks[j] == k);
            }
        }
    }
}

/// After the daemon's shutdown, once the child of every entry exited, every entry is
/// `Offline` and no entry is lost; a second shutdown finds nothing online.
pub proof fn lemma_shutdown_drains(m: Map<Seq<char>, Instance>, ks: Seq<Seq<char>>)
    requires
        forall|k: Seq<char>| #[trigger] m.contains_key(k) ==> ks.contains(k),
    ensures
        all_exited(stopping_all(m), ks).dom() == m.dom(),
        forall|k: Seq<char>| #[trigger] all_exited(stopping_all(m), ks).contains_key(k) ==> all_exited(stopping_all(m), ks)[k].status
            == InstanceStatus::Offline,
        forall|k: Seq<char>| #[trigger] stopping_all(m).contains_key(k) ==> stopping_all(m)[k].status != InstanceStatus::Online,
        stopping_all(stopping_all(m)) == stopping_all(m),
{
    let s = stopping_all(m);
    assert(s.dom() =~= m.dom());
    lemma_all_exited(s, ks);
    assert(stopping_all(s) =~= s);
}

/// A path without the `\\?\` prefix that Windows puts before absolute paths.
pub open spec fn without_verbatim_prefix(p: Seq<char>) -> Seq<char> {
    if p.len() >= 4 && p[0] == '\\' && p[1] == '\\' && p[2] == '?' && p[3] == '\\' {
        p.subrange(4, p.len() as int)
    } else {
        p
    }
}

/// The working directory handed to a child: `path` without a `\\?\` prefix.
pub fn working_dir(path: &str) -> (r: String)
    ensures
        r@ == without_verbatim_prefix(path@),
{
    let p = chars_of(path);
    if p.len() >= 4 && p[0] == '\\' && p[1] == '\\' && p[2] == '?' && p[3] == '\\' {
        let rest = crate::text::slice_chars(&p, 4, p.len());
        crate::text::string_of(&rest)
    } else {
        crate::text::string_of(&p)
    }
}

} // verus!

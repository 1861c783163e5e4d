//! The bookkeeping of the watcher supervisor: which sources have a running
//! watcher, each with the handle the caller keeps for it (a task handle and its
//! cancellation channel). Starting, stopping and restarting the watchers
//! themselves is the caller's; the registry decides what each request may do and
//! guarantees that a failed start leaves no entry behind.

use vstd::prelude::*;
use crate::config::{Config, ConfigError};
use crate::text::views;

verus! {

/// Why a supervisor request was refused.
#[derive(Debug, Clone, Copy, PartialEq, Eq, Structural)]
pub enum SupervisorError {
    /// A watcher for the source is already running.
    AlreadyRunning,
    /// No configuration exists for the source.
    ConfigNotFound,
    /// The configuration breaks a rule.
    InvalidConfig(ConfigError),
    /// No watcher for the source is running.
    NotRunning,
}

/// The running watchers, by source identifier.
pub struct WatcherRegistry<H> {
    ids: Vec<String>,
    handles: Vec<H>,
}

impl<H> WatcherRegistry<H> {
    /// The sources with a running watcher, in order of start.
    pub closed spec fn running(&self) -> Seq<Seq<char>> {
        views(self.ids@)
    }

    /// The handles, one per running source, in the same order.
    pub closed spec fn handles(&self) -> Seq<H> {
        self.handles@
    }

    /// One handle per source, and no source twice.
    pub open spec fn wf(&self) -> bool {
        &&& self.running().no_duplicates()
        &&& self.handles().len() == self.running().len()
    }

    /// A registry with nothing running.
    pub fn new() -> (r: WatcherRegistry<H>)
        ensures
            r.wf(),
            r.running().len() == 0,
    {
        let r = WatcherRegistry { ids: Vec::new(), handles: Vec::new() };
        assert(r.running() =~= Seq::<Seq<char>>::empty());
        r
    }

    fn find(&self, id: &String) -> (r: Option<usize>)
        ensures
            r matches Some(i) ==> i < self.running().len() && self.running()[i as int] == id@,
            r is None <==> !self.running().contains(id@),
    {
        let mut i: usize = 0;
        while i < self.ids.len()
            invariant
                i <= self.ids@.len(),
                forall|k: int| 0 <= k < i ==> self.running()[k] != id@,
            decreases self.ids@.len() - i,
        {
            if self.ids[i] == *id {
                assert(self.running()[i as int] == id@);
                return Some(i);
            }
            i = i + 1;
        }
        None
    }

    /// Whether a watcher for the source is running.
    pub fn is_running(&self, config_id: &str) -> (r: bool)
        ensures
            r == self.running().contains(config_id@),
    {
        self.find(&config_id.to_string()).is_some()
    }

    /// Decides whether a watcher for `config_id` may start, given the source's
    /// configuration if there is one: not while one is running, not without a
    /// configuration, not with one that breaks a rule.
    pub fn check_start(&self, config_id: &str, config: Option<&Config>) -> (r: Result<(), SupervisorError>)
        ensures
            self.running().contains(config_id@) ==> r == Err::<(), SupervisorError>(SupervisorError::AlreadyRunning),
            !self.running().contains(config_id@) && config is None ==> r == Err::<(), SupervisorError>(
                SupervisorError::ConfigNotFound,
            ),
            !self.running().contains(config_id@) ==> (config matches Some(c) ==> (match crate::config::config_error(
                c.id@,
                c.regex@,
                c.ban_time,
                c.find_time,
                c.max_matches,
            ) {
                Some(e) => r == Err::<(), SupervisorError>(SupervisorError::InvalidConfig(e)),
                None => r is Ok,
            })),
    {
        if self.is_running(config_id) {
            return Err(SupervisorError::AlreadyRunning);
        }
        match config {
            None => Err(SupervisorError::ConfigNotFound),
            Some(c) => match c.validate() {
                Ok(()) => Ok(()),
                Err(e) => Err(SupervisorError::InvalidConfig(e)),
            },
        }
    }

    /// Records the watcher of `config_id` as running, once it has reached its
    /// running state; a source already running is refused and nothing changes.
    pub fn insert(&mut self, config_id: &str, handle: H) -> (r: Result<(), SupervisorError>)
        requires
            old(self).wf(),
        ensures
            final(self).wf(),
            old(self).running().contains(config_id@) ==> r == Err::<(), SupervisorError>(
                SupervisorError::AlreadyRunning,
            ) && final(self).running() == old(self).running(),
            !old(self).running().contains(config_id@) ==> r is Ok && final(self).running() == old(
                self,
            ).running().push(config_id@) && final(self).handles() == old(self).handles().push(handle),
    {
        if self.is_running(config_id) {
            return Err(SupervisorError::AlreadyRunning);
        }
        let ghost before = self.running();
        self.ids.push(config_id.to_string());
        self.handles.push(handle);
        assert(self.running() =~= before.push(config_id@));
        Ok(())
    }

    /// Removes the watcher of `config_id` and hands back its handle, so that the
    /// caller can signal it and wait for it; a source not running is reported.
    pub fn remove(&mut self, config_id: &str) -> (r: Result<H, SupervisorError>)
        requires
            old(self).wf(),
        ensures
            final(self).wf(),
            !final(self).running().contains(config_id@),
            old(self).running().contains(config_id@) <==> r is Ok,
            r is Err ==> r == Err::<H, SupervisorError>(SupervisorError::NotRunning) && final(self).running()
                == old(self).running(),
            forall|x: Seq<char>| x != config_id@ ==> (#[trigger] final(self).running().contains(x)
                <==> old(self).running().contains(x)),
    {
        match self.find(&config_id.to_string()) {
            None => Err(SupervisorError::NotRunning),
            Some(i) => {
                let ghost before = self.running();
                self.ids.remove(i);
                let h = self.handles.remove(i);
                assert(self.running() =~= before.remove(i as int));
                assert forall|x: Seq<char>| #[trigger] self.running().contains(x) <==> (before.contains(x)
                    && x != config_id@) by {
                    if self.running().contains(x) {
                        let k = choose|k: int| 0 <= k < self.running().len() && self.running()[k] == x;
                        if k < i {
                            assert(before[k] == x);
                        } else {
                            assert(before[k + 1] == x);
                        }
                    }
                    if before.contains(x) && x != config_id@ {
                        let k = choose|k: int| 0 <= k < before.len() && before[k] == x;
                        if k < i {
                            assert(self.running()[k] == x);
                        } else {
                            assert(self.running()[k - 1] == x);
                        }
                    }
                }
                Ok(h)
            },
        }
    }

    /// The sources with a running watcher, for stopping them all at shutdown.
    pub fn running_ids(&self) -> (r: Vec<String>)
        ensures
            views(r@) == self.running(),
    {
        let mut out: Vec<String> = Vec::new();
        let mut i: usize = 0;
        while i < self.ids.len()
            invariant
                i <= self.ids@.len(),
                views(out@) == views(self.ids@).subrange(0, i as int),
            decreases self.ids@.len() - i,
        {
            let ghost prev = out@;
            out.push(self.ids[i].clone());
            assert(views(out@) =~= views(prev).push(self.ids@[i as int]@));
            assert(views(self.ids@).subrange(0, i as int + 1) =~= views(self.ids@).subrange(0, i as int).push(
                self.ids@[i as int]@,
            ));
            i = i + 1;
        }
        assert(views(self.ids@).subrange(0, self.ids@.len() as int) =~= views(self.ids@));
        out
    }
}

} // verus!

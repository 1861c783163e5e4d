//! The set of configured sources, one configuration per identifier, as the
//! configuration store keeps it in memory.

use vstd::prelude::*;
use crate::config::{applied, Config, ConfigError};

verus! {

/// Why a change to the set of configurations was refused.
#[derive(Debug, Clone, Copy, PartialEq, Eq, Structural)]
pub enum ConfigSetError {
    /// A configuration with that identifier exists already.
    AlreadyExists,
    /// No configuration has that identifier.
    NotFound,
    /// The configuration breaks a rule.
    Invalid(ConfigError),
}

/// The configurations, by identifier.
pub struct ConfigSet {
    configs: Vec<Config>,
}

impl ConfigSet {
    /// The identifiers, in order of addition.
    pub closed spec fn ids(&self) -> Seq<Seq<char>> {
        self.configs@.map_values(|c: Config| c.id@)
    }

    /// The configurations, in order of addition.
    pub closed spec fn configs(&self) -> Seq<Config> {
        self.configs@
    }

    /// No identifier twice, and every configuration valid.
    pub open spec fn wf(&self) -> bool {
        &&& self.ids().no_duplicates()
        &&& forall|i: int| 0 <= i < self.configs().len() ==> (#[trigger] self.configs()[i]).valid()
        &&& self.ids().len() == self.configs().len()
    }

    /// An empty set.
    pub fn new() -> (r: ConfigSet)
        ensures
            r.wf(),
            r.ids().len() == 0,
    {
        let r = ConfigSet { configs: Vec::new() };
        assert(r.ids() =~= Seq::<Seq<char>>::empty());
        r
    }

    fn find(&self, id: &String) -> (r: Option<usize>)
        requires
            self.wf(),
        ensures
            r matches Some(i) ==> i < self.ids().len() && self.ids()[i as int] == id@,
            r is None <==> !self.ids().contains(id@),
    {
        let mut i: usize = 0;
        while i < self.configs.len()
            invariant
                i <= self.configs@.len(),
                self.ids().len() == self.configs@.len(),
                forall|k: int| 0 <= k < i ==> self.ids()[k] != id@,
            decreases self.configs@.len() - i,
        {
            if self.configs[i].id == *id {
                assert(self.ids()[i as int] == id@);
                return Some(i);
            }
            assert(self.ids()[i as int] == self.configs@[i as int].id@);
            i = i + 1;
        }
        None
    }

    /// Adds a configuration under its identifier, unless one is there already
    /// or it breaks a rule.
    pub fn add_config(&mut self, config: Config) -> (r: Result<(), ConfigSetError>)
        requires
            old(self).wf(),
        ensures
            final(self).wf(),
            old(self).ids().contains(config.id@) ==> r == Err::<(), ConfigSetError>(
                ConfigSetError::AlreadyExists,
            ) && final(self).ids() == old(self).ids(),
            !old(self).ids().contains(config.id@) && !config.valid() ==> r is Err && final(self).ids()
                == old(self).ids(),
            !old(self).ids().contains(config.id@) && config.valid() ==> r is Ok && final(self).ids()
                == old(self).ids().push(config.id@),
            r is Err ==> final(self).configs() == old(self).configs(),
    {
        if self.find(&config.id).is_some() {
            return Err(ConfigSetError::AlreadyExists);
        }
        if let Err(e) = config.validate() {
            return Err(ConfigSetError::Invalid(e));
        }
        let ghost before = self.configs@;
        let ghost id = config.id@;
        self.configs.push(config);
        assert(self.ids() =~= old(self).ids().push(id));
        assert forall|i: int| 0 <= i < self.configs().len() implies (#[trigger] self.configs()[i]).valid() by {
            if i < before.len() {
                assert(self.configs()[i] == before[i]);
            }
        }
        Ok(())
    }

    /// The configuration with the given identifier.
    pub fn get_config(&self, id: &str) -> (r: Option<&Config>)
        requires
            self.wf(),
        ensures
            r is None <==> !self.ids().contains(id@),
            r matches Some(c) ==> c.id@ == id@ && c.valid() && self.configs().contains(*c),
    {
        match self.find(&id.to_string()) {
            Some(i) => {
                assert(self.configs()[i as int].valid());
                Some(&self.configs[i])
            },
            None => None,
        }
    }

    /// Applies changes to the configuration with the given identifier, all of
    /// them or, where the result would break a rule, none.
    pub fn update_config(
        &mut self,
        id: &str,
        name: Option<String>,
        param: Option<String>,
        regex: Option<String>,
        ban_time: Option<u64>,
        find_time: Option<u64>,
        max_matches: Option<u32>,
        ignore_ips: Option<Vec<String>>,
    ) -> (r: Result<(), ConfigSetError>)
        requires
            old(self).wf(),
        ensures
            final(self).wf(),
            final(self).ids() == old(self).ids(),
            !old(self).ids().contains(id@) ==> r == Err::<(), ConfigSetError>(ConfigSetError::NotFound),
            r is Err ==> final(self).configs() == old(self).configs(),
            r is Ok ==> exists|i: int|
                0 <= i < old(self).configs().len() && old(self).configs()[i].id@ == id@ && final(self).configs()
                    == old(self).configs().update(
                    i,
                    final(self).configs()[i],
                ) && applied(
                    old(self).configs()[i],
                    final(self).configs()[i],
                    name,
                    param,
                    regex,
                    ban_time,
                    find_time,
                    max_matches,
                    ignore_ips,
                ),
    {
        let i = match self.find(&id.to_string()) {
            Some(i) => i,
            None => return Err(ConfigSetError::NotFound),
        };
        let mut c = self.configs.remove(i);
        let ghost before = self.configs@;
        let ghost orig = c;
        let r = c.update(name, param, regex, ban_time, find_time, max_matches, ignore_ips);
        proof {
            if r is Ok {
                assert(c.id == orig.id);
            }
        }
        self.configs.insert(i, c);
        assert(self.configs@ =~= before.insert(i as int, c));
        assert(self.ids() =~= old(self).ids()) by {
            assert forall|k: int| 0 <= k < self.ids().len() implies self.ids()[k] == old(self).ids()[k] by {
                if k < i {
                    assert(self.configs@[k] == old(self).configs@[k]);
                } else if k > i {
                    assert(self.configs@[k] == old(self).configs@[k]);
                }
            }
        }
        assert forall|k: int| 0 <= k < self.configs().len() implies (#[trigger] self.configs()[k]).valid() by {
            if k != i {
                assert(self.configs@[k] == old(self).configs@[k]);
            } else {
                assert(old(self).configs()[k].valid());
            }
        }
        assert(self.configs@ =~= old(self).configs@.update(i as int, self.configs@[i as int]));
        match r {
            Ok(()) => {
                assert(old(self).configs()[i as int].id@ == id@) by {
                    assert(old(self).ids()[i as int] == old(self).configs()[i as int].id@);
                }
                Ok(())
            },
            Err(e) => {
                assert(self.configs@ =~= old(self).configs@);
                Err(ConfigSetError::Invalid(e))
            },
        }
    }

    /// Removes the configuration with the given identifier; says whether there was one.
    pub fn remove_config(&mut self, id: &str) -> (r: bool)
        requires
            old(self).wf(),
        ensures
            final(self).wf(),
            r == old(self).ids().contains(id@),
            !final(self).ids().contains(id@),
            forall|x: Seq<char>| x != id@ ==> (#[trigger] final(self).ids().contains(x) <==> old(
                self,
            ).ids().contains(x)),
    {
        match self.find(&id.to_string()) {
            None => false,
            Some(i) => {
                let ghost before = self.configs@;
                let ghost ids = self.ids();
                self.configs.remove(i);
                assert(self.configs@ =~= before.remove(i as int));
                assert(self.ids() =~= ids.remove(i as int));
                assert forall|x: Seq<char>| #[trigger] self.ids().contains(x) <==> (ids.contains(x) && x
                    != id@) by {
                    if self.ids().contains(x) {
                        let k = choose|k: int| 0 <= k < self.ids().len() && self.ids()[k] == x;
                        if k < i {
                            assert(ids[k] == x);
                        } else {
                            assert(ids[k + 1] == x);
                        }
                    }
                    if ids.contains(x) && x != id@ {
                        let k = choose|k: int| 0 <= k < ids.len() && ids[k] == x;
                        if k < i {
                            assert(self.ids()[k] == x);
                        } else {
                            assert(self.ids()[k - 1] == x);
                        }
                    }
                }
                assert forall|k: int| 0 <= k < self.configs().len() implies (#[trigger] self.configs()[k]).valid() by {
                    if k < i {
                        assert(self.configs()[k] == before[k]);
                    } else {
                        assert(self.configs()[k] == before[k + 1]);
                    }
                }
                true
            },
        }
    }

    /// The configurations, in order of addition.
    pub fn list_configs(&self) -> (r: &Vec<Config>)
        ensures
            r@ == self.configs(),
    {
        &self.configs
    }
}

} // verus!

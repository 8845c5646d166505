use vstd::prelude::*;

use crate::versions::Version;

verus! {

/// Error from the installed-version registry.
#[derive(Clone, Copy, Debug, PartialEq, Eq, Structural)]
pub enum RegistryError {
    /// The requested version is not in the installed set.
    NotInstalled,
}

/// The installed-version registry: the versions installed so far, in
/// installation order, and the version currently exposed as `current`,
/// if any. Loading and saving it is the caller's concern; this type
/// holds the rules.
pub struct Config {
    pub versions: Vec<Version>,
    pub current: Option<Version>,
}

impl Config {
    /// The registry invariant: `current`, when set, names an installed
    /// version.
    pub open spec fn wf(&self) -> bool {
        self.current matches Some(c) ==> self.versions@.contains(c)
    }

    /// An empty registry: nothing installed, no current version.
    pub fn new() -> (r: Self)
        ensures
            r.versions@ == Seq::<Version>::empty(),
            r.current is None,
            r.wf(),
    {
        Config { versions: Vec::new(), current: None }
    }

    /// Whether `v` is in the installed set.
    pub fn is_installed(&self, v: &Version) -> (r: bool)
        ensures
            r == self.versions@.contains(*v),
    {
        let n = self.versions.len();
        let mut k: usize = 0;
        while k < n
            invariant
                k <= n == self.versions@.len(),
                forall|q: int| 0 <= q < k ==> self.versions@[q] != *v,
            decreases n - k,
        {
            if self.versions[k] == *v {
                return true;
            }
            k = k + 1;
        }
        proof {
            assert(forall|q: int| 0 <= q < self.versions@.len() ==> self.versions@[q] != *v);
        }
        false
    }

    /// Records a completed installation: appends `v` to the installed
    /// set and leaves `current` alone. Runs only after materialization
    /// has fully succeeded.
    pub fn record_install(&mut self, v: Version)
        requires
            old(self).wf(),
        ensures
            final(self).versions@ == old(self).versions@.push(v),
            final(self).current == old(self).current,
            final(self).wf(),
    {
        self.versions.push(v);
        proof {
            if let Some(c) = self.current {
                let i = choose|i: int|
                    0 <= i < old(self).versions@.len() && old(self).versions@[i] == c;
                assert(self.versions@[i] == c);
            }
        }
    }

    /// Makes `v` the current version. Succeeds exactly when `v` is
    /// installed; otherwise the registry is unchanged and the request
    /// fails with `NotInstalled`.
    pub fn set_current(&mut self, v: Version) -> (r: Result<(), RegistryError>)
        requires
            old(self).wf(),
        ensures
            final(self).wf(),
            r is Ok <==> old(self).versions@.contains(v),
            final(self).versions@ == old(self).versions@,
            r is Ok ==> final(self).current == Some(v),
            r is Err ==> final(self).current == old(self).current && r == Result::<
                (),
                RegistryError,
            >::Err(RegistryError::NotInstalled),
    {
        if self.is_installed(&v) {
            self.current = Some(v);
            Ok(())
        } else {
            Err(RegistryError::NotInstalled)
        }
    }
}

} // verus!

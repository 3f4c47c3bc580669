//! The scope→mount registry of one render session.
//!
//! While a suspense boundary is pending, the registry ties its scope id to
//! the mount handle of the placeholder written for it, together with the
//! child boundaries discovered while its loading state was rendered. An
//! entry exists iff the scope's placeholder has been written but not yet
//! replaced. The registry also tracks which scopes have begun capturing
//! errors, so that errors raised under an already-streamed ancestor are
//! contained instead of invalidating sent markup.

use vstd::prelude::*;

verus! {

/// A suspense boundary that is pending, with a placeholder in the client:
/// its mount handle and the child boundaries recorded under it before it
/// resolved.
pub struct PendingSuspenseBoundary {
    pub mount: u64,
    pub children: Vec<usize>,
}

/// Ghost model of a pending boundary.
#[verifier::ext_equal]
pub ghost struct BoundaryV {
    pub mount: nat,
    pub children: Seq<int>,
}

impl View for PendingSuspenseBoundary {
    type V = BoundaryV;

    open spec fn view(&self) -> BoundaryV {
        BoundaryV {
            mount: self.mount as nat,
            children: self.children@.map_values(|c: usize| c as int),
        }
    }
}

/// The per-session registry: one slot per scope, plus the error-capturing
/// flags. A scope appears at most once by construction.
pub struct Registry {
    pub slots: Vec<Option<PendingSuspenseBoundary>>,
    pub capturing: Vec<bool>,
}

impl Registry {
    /// The registry as a map from scope id to its pending boundary.
    pub open spec fn reg_map(self) -> Map<int, BoundaryV> {
        Map::new(
            |k: int| 0 <= k < self.slots@.len() && self.slots@[k] is Some,
            |k: int| self.slots@[k]->0@,
        )
    }

    /// The scopes that have begun capturing errors.
    pub open spec fn cap_set(self) -> Set<int> {
        Set::new(|k: int| 0 <= k < self.capturing@.len() && self.capturing@[k])
    }

    /// One slot and one flag per scope of the graph.
    pub open spec fn wf(self, n_scopes: int) -> bool {
        self.slots@.len() == n_scopes && self.capturing@.len() == n_scopes
    }

    /// An empty registry for a graph of `n_scopes` scopes.
    pub fn new(n_scopes: usize) -> (r: Registry)
        ensures
            r.wf(n_scopes as int),
            r.reg_map() =~= Map::<int, BoundaryV>::empty(),
            r.cap_set() =~= Set::<int>::empty(),
    {
        let mut slots: Vec<Option<PendingSuspenseBoundary>> = Vec::new();
        let mut capturing: Vec<bool> = Vec::new();
        let mut i: usize = 0;
        while i < n_scopes
            invariant
                i <= n_scopes,
                slots@.len() == i,
                capturing@.len() == i,
                forall|j: int| 0 <= j < i ==> slots@[j] is None,
                forall|j: int| 0 <= j < i ==> !capturing@[j],
            decreases n_scopes - i,
        {
            slots.push(Option::None);
            capturing.push(false);
            i = i + 1;
        }
        Registry { slots, capturing }
    }

    /// Whether `scope` currently holds a pending boundary.
    pub fn contains(&self, scope: usize) -> (b: bool)
        requires
            (scope as int) < self.slots@.len(),
        ensures
            b == self.reg_map().contains_key(scope as int),
    {
        self.slots[scope].is_some()
    }

    /// Register a freshly placeholdered boundary. The scope must not hold a
    /// live placeholder already.
    pub fn insert(&mut self, scope: usize, boundary: PendingSuspenseBoundary)
        requires
            (scope as int) < old(self).slots@.len(),
            !old(self).reg_map().contains_key(scope as int),
        ensures
            final(self).reg_map() == old(self).reg_map().insert(scope as int, boundary@),
            final(self).cap_set() == old(self).cap_set(),
            final(self).slots@.len() == old(self).slots@.len(),
            final(self).capturing@.len() == old(self).capturing@.len(),
    {
        self.slots[scope] = Option::Some(boundary);
        proof {
            assert(final(self).reg_map() =~= old(self).reg_map().insert(
                scope as int,
                final(self).slots@[scope as int]->0@,
            ));
            assert(final(self).cap_set() =~= old(self).cap_set());
        }
    }

    /// Record `child` under the pending boundary of `parent`, if the parent
    /// still holds one.
    pub fn record_child(&mut self, parent: usize, child: usize)
        requires
            (parent as int) < old(self).slots@.len(),
        ensures
            final(self).reg_map() == spec_record_child(
                old(self).reg_map(),
                parent as int,
                child as int,
            ),
            final(self).cap_set() == old(self).cap_set(),
            final(self).slots@.len() == old(self).slots@.len(),
            final(self).capturing@.len() == old(self).capturing@.len(),
    {
        let slot = core::option::Option::take(&mut self.slots[parent]);
        match slot {
            Option::Some(mut b) => {
                b.children.push(child);
                self.slots[parent] = Option::Some(b);
                proof {
                    assert(final(self).slots@[parent as int]->0@.children
                        =~= old(self).slots@[parent as int]->0@.children.push(child as int));
                }
            },
            Option::None => {
                self.slots[parent] = Option::None;
            },
        }
        proof {
            assert(final(self).reg_map() =~= spec_record_child(
                old(self).reg_map(),
                parent as int,
                child as int,
            ));
            assert(final(self).cap_set() =~= old(self).cap_set());
        }
    }

    /// Remove and return the pending boundary of `scope`, if any: the
    /// placeholder is about to be replaced.
    pub fn take(&mut self, scope: usize) -> (b: Option<PendingSuspenseBoundary>)
        requires
            (scope as int) < old(self).slots@.len(),
        ensures
            final(self).reg_map() == old(self).reg_map().remove(scope as int),
            final(self).cap_set() == old(self).cap_set(),
            final(self).slots@.len() == old(self).slots@.len(),
            final(self).capturing@.len() == old(self).capturing@.len(),
            match b {
                Option::Some(bd) => old(self).reg_map().contains_key(scope as int) && bd@ == old(
                    self,
                ).reg_map()[scope as int],
                Option::None => !old(self).reg_map().contains_key(scope as int),
            },
    {
        let slot = &mut self.slots[scope];
        let b = core::option::Option::take(slot);
        proof {
            assert(final(self).reg_map() =~= old(self).reg_map().remove(scope as int));
            assert(final(self).cap_set() =~= old(self).cap_set());
        }
        b
    }

    /// Begin capturing errors at `scope`: errors raised there no longer
    /// propagate to an ancestor that has already been streamed.
    pub fn start_capturing(&mut self, scope: usize)
        requires
            (scope as int) < old(self).capturing@.len(),
        ensures
            final(self).cap_set() == old(self).cap_set().insert(scope as int),
            final(self).reg_map() == old(self).reg_map(),
            final(self).slots@.len() == old(self).slots@.len(),
            final(self).capturing@.len() == old(self).capturing@.len(),
    {
        self.capturing[scope] = true;
        proof {
            assert(final(self).cap_set() =~= old(self).cap_set().insert(scope as int));
            assert(final(self).reg_map() =~= old(self).reg_map());
        }
    }
}

/// What recording a child does to the registry map: the parent's child list
/// grows by one if the parent is registered, nothing changes otherwise.
pub open spec fn spec_record_child(reg: Map<int, BoundaryV>, parent: int, child: int) -> Map<
    int,
    BoundaryV,
> {
    if reg.contains_key(parent) {
        reg.insert(
            parent,
            BoundaryV { mount: reg[parent].mount, children: reg[parent].children.push(child) },
        )
    } else {
        reg
    }
}

} // verus!

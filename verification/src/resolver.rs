//! What a system asks of the world, and how its requests are resolved.
//!
//! A system declares, for each of its inputs, shared or exclusive access to
//! one resource or to one component store. Before the system runs, its
//! declarations are held against each other and against what the world has.
//! The world itself is not at hand here: it is known by a list that says of
//! each resource whether it is present and whether it could be made by
//! default, and the outcome is a list of what to fetch, or the reason why
//! the system cannot run.

use vstd::prelude::*;

verus! {

/// How an input is borrowed.
#[derive(Clone, Copy, Debug, PartialEq, Eq, Structural, Hash)]
pub enum AccessMode {
    /// Others may read at the same time.
    Shared,
    /// Nobody else may read or write at the same time.
    Exclusive,
}

/// What an input is borrowed from. The number stands for the type of the
/// resource or of the component.
#[derive(Clone, Copy, Debug, PartialEq, Eq, Structural, Hash)]
pub enum Target {
    /// The one value of a resource type.
    Resource(u64),
    /// The store of a component type.
    Components(u64),
}

/// One declared input of a system.
#[derive(Clone, Copy, Debug, PartialEq, Eq, Structural, Hash)]
pub struct Access {
    pub target: Target,
    pub mode: AccessMode,
}

/// What the world says of one resource type.
#[derive(Clone, Copy, Debug, PartialEq, Eq, Structural, Hash)]
pub struct ResourceInfo {
    /// The resource type.
    pub id: u64,
    /// Whether a value was inserted.
    pub present: bool,
    /// Whether the type can make a value by default.
    pub has_default: bool,
}

/// What is to be done for one input before the system runs.
#[derive(Clone, Copy, Debug, PartialEq, Eq, Structural, Hash)]
pub enum Fetch {
    /// Borrow what is there. A component store that is not there yet is
    /// made empty by the world when it is first borrowed.
    Borrow(Access),
    /// Make the resource by default, then borrow it.
    Construct(Access),
}

/// Why a system cannot run.
#[derive(Clone, Copy, Debug, PartialEq, Eq, Structural, Hash)]
pub enum ResolveError {
    /// The resource was never inserted and has no default.
    MissingResource(u64),
    /// Two inputs of the system, given by their places, borrow the same
    /// target and one of them borrows it exclusively.
    Conflict { first: usize, second: usize },
}

/// Whether two accesses cannot be held at the same time: they have the same
/// target and at least one of them is exclusive.
pub open spec fn conflict(a: Access, b: Access) -> bool {
    a.target == b.target && (a.mode == AccessMode::Exclusive || b.mode == AccessMode::Exclusive)
}

/// Whether a list of accesses holds no two that conflict.
pub open spec fn conflict_free(accesses: Seq<Access>) -> bool {
    forall|i: int, j: int| 0 <= i < j < accesses.len() ==> !conflict(accesses[i], accesses[j])
}

/// Whether the accesses at `first` and `second` are the first that conflict:
/// no access before `second` conflicts with an earlier one, and no access
/// before `first` conflicts with the one at `second`.
pub open spec fn first_conflict(accesses: Seq<Access>, first: int, second: int) -> bool {
    &&& 0 <= first < second < accesses.len()
    &&& conflict(accesses[first], accesses[second])
    &&& conflict_free(accesses.take(second))
    &&& forall|i: int| 0 <= i < first ==> !conflict(accesses[i], accesses[second])
}

/// What the world says of resource type `id`: the first entry for it.
pub open spec fn lookup(resources: Seq<ResourceInfo>, id: u64) -> Option<ResourceInfo>
    decreases resources.len(),
{
    if resources.len() == 0 {
        None
    } else if resources[0].id == id {
        Some(resources[0])
    } else {
        lookup(resources.drop_first(), id)
    }
}

/// Whether an access asks for a resource that is neither there nor can be
/// made by default.
pub open spec fn missing(resources: Seq<ResourceInfo>, access: Access) -> bool {
    match access.target {
        Target::Resource(id) => match lookup(resources, id) {
            Some(info) => !info.present && !info.has_default,
            None => true,
        },
        Target::Components(_) => false,
    }
}

/// Whether an access before place `k` has the target of the access at `k`.
pub open spec fn seen_before(accesses: Seq<Access>, k: int) -> bool {
    exists|i: int| 0 <= i < k && (#[trigger] accesses[i]).target == accesses[k].target
}

/// What is to be done for the access at place `k`: a resource that is not
/// there is made by default where it is first asked for; everything else is
/// borrowed.
pub open spec fn fetch_at(accesses: Seq<Access>, resources: Seq<ResourceInfo>, k: int) -> Fetch {
    let access = accesses[k];
    match access.target {
        Target::Resource(id) => match lookup(resources, id) {
            Some(info) => if !info.present && !seen_before(accesses, k) {
                Fetch::Construct(access)
            } else {
                Fetch::Borrow(access)
            },
            None => Fetch::Borrow(access),
        },
        Target::Components(_) => Fetch::Borrow(access),
    }
}

/// Whether two accesses conflict.
pub fn conflicts(a: Access, b: Access) -> (r: bool)
    ensures
        r == conflict(a, b),
{
    a.target == b.target && (a.mode == AccessMode::Exclusive || b.mode == AccessMode::Exclusive)
}

/// The first two accesses of a system that conflict, if any do.
pub fn find_conflict(accesses: &[Access]) -> (r: Option<(usize, usize)>)
    ensures
        match r {
            Some((first, second)) => first_conflict(accesses@, first as int, second as int),
            None => conflict_free(accesses@),
        },
{
    let mut second: usize = 0;
    while second < accesses.len()
        invariant
            second <= accesses@.len(),
            conflict_free(accesses@.take(second as int)),
        decreases accesses@.len() - second,
    {
        let mut first: usize = 0;
        while first < second
            invariant
                first <= second < accesses@.len(),
                conflict_free(accesses@.take(second as int)),
                forall|i: int| 0 <= i < first ==> !conflict(accesses@[i], accesses@[second as int]),
            decreases second - first,
        {
            if conflicts(accesses[first], accesses[second]) {
                return Some((first, second));
            }
            first += 1;
        }
        proof {
            let wider = accesses@.take(second + 1);
            assert forall|i: int, j: int| 0 <= i < j < wider.len() implies !conflict(
                wider[i],
                wider[j],
            ) by {
                if j < second {
                    assert(!conflict(accesses@.take(second as int)[i], accesses@.take(second as int)[j]));
                }
            }
        }
        second += 1;
    }
    proof {
        assert(accesses@.take(second as int) =~= accesses@);
    }
    None
}

/// Whether a system with accesses `a` and one with accesses `b` could run
/// at the same time: no access of the one conflicts with one of the other.
pub fn compatible(a: &[Access], b: &[Access]) -> (r: bool)
    ensures
        r == (forall|i: int, j: int|
            0 <= i < a@.len() && 0 <= j < b@.len() ==> !conflict(a@[i], b@[j])),
{
    let mut i: usize = 0;
    while i < a.len()
        invariant
            i <= a@.len(),
            forall|x: int, y: int| 0 <= x < i && 0 <= y < b@.len() ==> !conflict(a@[x], b@[y]),
        decreases a@.len() - i,
    {
        let mut j: usize = 0;
        while j < b.len()
            invariant
                i < a@.len(),
                j <= b@.len(),
                forall|y: int| 0 <= y < j ==> !conflict(a@[i as int], b@[y]),
            decreases b@.len() - j,
        {
            if conflicts(a[i], b[j]) {
                return false;
            }
            j += 1;
        }
        i += 1;
    }
    true
}

/// What the world says of resource type `id`.
pub fn find_resource(resources: &[ResourceInfo], id: u64) -> (r: Option<ResourceInfo>)
    ensures
        r == lookup(resources@, id),
{
    let mut k: usize = 0;
    proof {
        assert(resources@.skip(0) =~= resources@);
    }
    while k < resources.len()
        invariant
            k <= resources@.len(),
            lookup(resources@, id) == lookup(resources@.skip(k as int), id),
        decreases resources@.len() - k,
    {
        proof {
            assert(resources@.skip(k as int).drop_first() =~= resources@.skip(k + 1));
        }
        if resources[k].id == id {
            return Some(resources[k]);
        }
        k += 1;
    }
    None
}

/// Resolves the inputs of a system. It fails if two of them conflict, else
/// if one asks for a resource that is neither there nor can be made by
/// default; the first such finding is reported. Else it says, for each
/// input in order, what is to be fetched.
pub fn resolve(accesses: &[Access], resources: &[ResourceInfo]) -> (r: Result<
    Vec<Fetch>,
    ResolveError,
>)
    ensures
        match r {
            Err(ResolveError::Conflict { first, second }) => first_conflict(
                accesses@,
                first as int,
                second as int,
            ),
            Err(ResolveError::MissingResource(id)) => conflict_free(accesses@) && exists|k: int|
                0 <= k < accesses@.len() && #[trigger] missing(resources@, accesses@[k])
                    && accesses@[k].target == Target::Resource(id) && forall|i: int|
                    0 <= i < k ==> !missing(resources@, accesses@[i]),
            Ok(plan) => conflict_free(accesses@) && plan@.len() == accesses@.len() && forall|k: int|
                0 <= k < accesses@.len() ==> !missing(resources@, accesses@[k]) && #[trigger] plan@[k]
                    == fetch_at(accesses@, resources@, k),
        },
{
    match find_conflict(accesses) {
        Some((first, second)) => {
            return Err(ResolveError::Conflict { first, second });
        },
        None => {},
    }
    let mut plan: Vec<Fetch> = Vec::new();
    let mut k: usize = 0;
    while k < accesses.len()
        invariant
            k <= accesses@.len(),
            plan@.len() == k,
            conflict_free(accesses@),
            forall|i: int| 0 <= i < k ==> !missing(resources@, accesses@[i]),
            forall|i: int|
                0 <= i < k ==> #[trigger] plan@[i] == fetch_at(accesses@, resources@, i),
        decreases accesses@.len() - k,
    {
        let access = accesses[k];
        let fetch = match access.target {
            Target::Resource(id) => {
                match find_resource(resources, id) {
                    Some(info) => {
                        if info.present {
                            Fetch::Borrow(access)
                        } else if !info.has_default {
                            proof {
                                assert(missing(resources@, accesses@[k as int]));
                            }
                            return Err(ResolveError::MissingResource(id));
                        } else if has_earlier(accesses, k) {
                            Fetch::Borrow(access)
                        } else {
                            Fetch::Construct(access)
                        }
                    },
                    None => {
                        proof {
                            assert(missing(resources@, accesses@[k as int]));
                        }
                        return Err(ResolveError::MissingResource(id));
                    },
                }
            },
            Target::Components(_) => Fetch::Borrow(access),
        };
        plan.push(fetch);
        k += 1;
    }
    Ok(plan)
}

/// Whether an access before place `k` has the target of the access at `k`.
pub fn has_earlier(accesses: &[Access], k: usize) -> (r: bool)
    requires
        k < accesses@.len(),
    ensures
        r == seen_before(accesses@, k as int),
{
    let mut i: usize = 0;
    while i < k
        invariant
            i <= k < accesses@.len(),
            forall|j: int| 0 <= j < i ==> (#[trigger] accesses@[j]).target != accesses@[k as int].target,
        decreases k - i,
    {
        if accesses[i].target == accesses[k].target {
            return true;
        }
        i += 1;
    }
    false
}

} // verus!

//! The registry of attached devices and the rules of a discovery pass.
//!
//! A pass has three parts. The caller lists the devices that are visible and
//! asks [`DeviceRegistry::candidates`] which of them to connect to. It tries
//! each of those once. It hands the same list and the outcomes to
//! [`DeviceRegistry::finish_pass`], which takes in the new sessions, remembers
//! the failures and forgets every device that is no longer visible.

use crate::repl::SessionError;
use vstd::hash_map::StringHashMap;
use vstd::hash_set::StringHashSet;
use vstd::prelude::*;

verus! {

/// Pause between two discovery passes, in nanoseconds.
pub const THREAD_DELAY_NANOS: u32 = 50_000_000;

/// The identifiers named by a list of device names.
pub open spec fn id_set(ids: Seq<String>) -> Set<Seq<char>> {
    Set::new(|id: Seq<char>| exists|k: int| 0 <= k < ids.len() && #[trigger] ids[k]@ == id)
}

/// The identifiers of a list of device names, in order.
pub open spec fn names(ids: Seq<String>) -> Seq<Seq<char>> {
    Seq::new(ids.len(), |k: int| ids[k]@)
}

/// What a registry holds: one session handle per attached device, and the
/// identifiers of the devices that failed to start.
#[verifier::reject_recursive_types(H)]
pub struct RegistryView<H> {
    pub repls: Map<Seq<char>, H>,
    pub black_list: Set<Seq<char>>,
}

impl<H> RegistryView<H> {
    /// The device has a session or is blacklisted.
    pub open spec fn knows(self, id: Seq<char>) -> bool {
        self.repls.contains_key(id) || self.black_list.contains(id)
    }

    /// The devices to connect to, given the visible ones in the order in
    /// which they were listed: those that are not known, each once.
    pub open spec fn wanted(self, visible: Seq<String>) -> Seq<Seq<char>>
        decreases visible.len(),
    {
        if visible.len() == 0 {
            Seq::empty()
        } else {
            let earlier = self.wanted(visible.drop_last());
            let id = visible.last()@;
            if !self.knows(id) && !earlier.contains(id) {
                earlier.push(id)
            } else {
                earlier
            }
        }
    }

    /// The registry after one connection attempt. An outcome counts only
    /// for a visible device that is not known yet.
    pub open spec fn record(
        self,
        visible: Set<Seq<char>>,
        id: Seq<char>,
        outcome: Result<H, SessionError>,
    ) -> Self {
        if visible.contains(id) && !self.knows(id) {
            match outcome {
                Ok(handle) => RegistryView {
                    repls: self.repls.insert(id, handle),
                    black_list: self.black_list,
                },
                Err(_) => RegistryView {
                    repls: self.repls,
                    black_list: self.black_list.insert(id),
                },
            }
        } else {
            self
        }
    }

    /// The registry after a list of connection attempts, taken in order.
    pub open spec fn record_all(
        self,
        visible: Set<Seq<char>>,
        outcomes: Seq<(String, Result<H, SessionError>)>,
    ) -> Self
        decreases outcomes.len(),
    {
        if outcomes.len() == 0 {
            self
        } else {
            self.record_all(visible, outcomes.drop_last()).record(
                visible,
                outcomes.last().0@,
                outcomes.last().1,
            )
        }
    }

    /// The registry without the devices that are not visible.
    pub open spec fn evict(self, visible: Set<Seq<char>>) -> Self {
        RegistryView {
            repls: self.repls.restrict(visible),
            black_list: self.black_list.intersect(visible),
        }
    }

    /// The registry after a whole discovery pass.
    pub open spec fn after_pass(
        self,
        visible: Seq<String>,
        outcomes: Seq<(String, Result<H, SessionError>)>,
    ) -> Self {
        self.record_all(id_set(visible), outcomes).evict(id_set(visible))
    }
}

/// The sessions of the attached devices, by device identifier, and the
/// blacklist of devices that failed to start.
#[verifier::reject_recursive_types(H)]
pub struct DeviceRegistry<H> {
    repls: StringHashMap<H>,
    black_list: StringHashSet,
    /// Every identifier in `repls` or `black_list` is listed here, so that a
    /// pass can walk them.
    known: Vec<String>,
}

impl<H> View for DeviceRegistry<H> {
    type V = RegistryView<H>;

    closed spec fn view(&self) -> RegistryView<H> {
        RegistryView { repls: self.repls@, black_list: self.black_list@ }
    }
}

impl<H> DeviceRegistry<H> {
    /// The registry's own bookkeeping is sound: it can name every device
    /// that it holds. Every registry made by [`DeviceRegistry::new`] and
    /// changed only by the methods below is well formed.
    pub closed spec fn well_formed(&self) -> bool {
        forall|id: Seq<char>| #[trigger] self@.knows(id) ==> id_set(self.known@).contains(id)
    }

    /// An empty registry: no session, nothing blacklisted.
    pub fn new() -> (registry: Self)
        ensures
            registry.well_formed(),
            registry@.repls == Map::<Seq<char>, H>::empty(),
            registry@.black_list == Set::<Seq<char>>::empty(),
    {
        DeviceRegistry {
            repls: StringHashMap::new(),
            black_list: StringHashSet::new(),
            known: Vec::new(),
        }
    }

    /// The session handle of a device, if it has one.
    pub fn get(&self, id: &str) -> (handle: Option<&H>)
        ensures
            match handle {
                Some(h) => self@.repls.contains_key(id@) && *h == self@.repls[id@],
                None => !self@.repls.contains_key(id@),
            },
    {
        self.repls.get(id)
    }

    /// Whether the device has a session.
    pub fn contains(&self, id: &str) -> (present: bool)
        ensures
            present == self@.repls.contains_key(id@),
    {
        self.repls.contains_key(id)
    }

    /// Whether the device failed to start and has not been seen absent since.
    pub fn is_blacklisted(&self, id: &str) -> (listed: bool)
        ensures
            listed == self@.black_list.contains(id@),
    {
        self.black_list.contains(id)
    }

    /// The devices to connect to in this pass: the visible devices that have
    /// no session and are not blacklisted, each once, in the order in which
    /// they were listed.
    pub fn candidates(&self, visible: &Vec<String>) -> (ids: Vec<String>)
        ensures
            names(ids@) == self@.wanted(visible@),
    {
        let mut ids: Vec<String> = Vec::new();
        let mut chosen = StringHashSet::new();
        let mut k: usize = 0;
        while k < visible.len()
            invariant
                k <= visible.len(),
                names(ids@) == self@.wanted(visible@.subrange(0, k as int)),
                forall|id: Seq<char>|
                    chosen@.contains(id) <==> #[trigger] names(ids@).contains(id),
            decreases visible.len() - k,
        {
            let id = &visible[k];
            let ghost earlier = names(ids@);
            proof {
                assert(visible@.subrange(0, k + 1).drop_last() == visible@.subrange(0, k as int));
            }
            if !self.repls.contains_key(id.as_str()) && !self.black_list.contains(id.as_str())
                && !chosen.contains(id.as_str()) {
                chosen.insert(id.clone());
                ids.push(id.clone());
                proof {
                    assert(names(ids@) =~= earlier.push(id@));
                    assert forall|x: Seq<char>| chosen@.contains(x) <==> #[trigger] names(
                        ids@,
                    ).contains(x) by {
                        if earlier.contains(x) {
                            let j = choose|j: int| 0 <= j < earlier.len() && earlier[j] == x;
                            assert(names(ids@)[j] == x);
                        }
                        if x == id@ {
                            assert(names(ids@)[earlier.len() as int] == x);
                        }
                    }
                }
            }
            k += 1;
        }
        proof {
            assert(visible@.subrange(0, visible@.len() as int) == visible@);
        }
        ids
    }

    /// Ends a discovery pass. `visible` is the list that the pass began
    /// with, and `outcomes` holds what each connection attempt gave, in the
    /// order of the attempts. A new session is taken in, a failure is
    /// blacklisted, and an outcome for a device that is not visible or is
    /// already known is dropped. Then every device that is not visible
    /// loses its session and its place on the blacklist.
    pub fn finish_pass(
        &mut self,
        visible: &Vec<String>,
        outcomes: Vec<(String, Result<H, SessionError>)>,
    )
        requires
            old(self).well_formed(),
        ensures
            final(self).well_formed(),
            final(self)@ == old(self)@.after_pass(visible@, outcomes@),
    {
        let devices = device_set(visible);
        let ghost all = outcomes@;
        let mut outcomes = outcomes;
        let ghost mut done: int = 0;
        while outcomes.len() > 0
            invariant
                0 <= done <= all.len(),
                outcomes@ == all.subrange(done, all.len() as int),
                self.well_formed(),
                self@ == old(self)@.record_all(devices@, all.subrange(0, done)),
            decreases outcomes.len(),
        {
            let (id, outcome) = outcomes.remove(0);
            proof {
                assert(all.subrange(0, done + 1).drop_last() == all.subrange(0, done));
                assert(outcomes@ == all.subrange(done + 1, all.len() as int));
            }
            self.record(&devices, id, outcome);
            proof {
                done = done + 1;
            }
        }
        proof {
            assert(all.subrange(0, all.len() as int) == all);
        }
        self.evict(&devices);
    }

    /// Takes one connection attempt into the registry.
    fn record(&mut self, devices: &StringHashSet, id: String, outcome: Result<H, SessionError>)
        requires
            old(self).well_formed(),
        ensures
            final(self).well_formed(),
            final(self)@ == old(self)@.record(devices@, id@, outcome),
    {
        if devices.contains(id.as_str()) && !self.repls.contains_key(id.as_str())
            && !self.black_list.contains(id.as_str()) {
            let ghost before = self.known@;
            self.known.push(id.clone());
            proof {
                assert(self.known@[before.len() as int]@ == id@);
                assert forall|x: Seq<char>| id_set(before).contains(x) implies id_set(
                    self.known@,
                ).contains(x) by {
                    let j = choose|j: int| 0 <= j < before.len() && #[trigger] before[j]@ == x;
                    assert(self.known@[j]@ == x);
                }
            }
            let ghost name = id@;
            match outcome {
                Ok(handle) => {
                    self.repls.insert(id, handle);
                },
                Err(_) => {
                    self.black_list.insert(id);
                },
            }
            proof {
                assert forall|x: Seq<char>| #[trigger] self@.knows(x) implies id_set(
                    self.known@,
                ).contains(x) by {
                    if x != name {
                        assert(old(self)@.knows(x));
                    }
                }
            }
        }
    }

    /// Forgets every device that is not among `devices`.
    fn evict(&mut self, devices: &StringHashSet)
        requires
            old(self).well_formed(),
        ensures
            final(self).well_formed(),
            final(self)@ == old(self)@.evict(devices@),
    {
        let ghost before = self@;
        let ghost mut gone: Set<Seq<char>> = Set::empty();
        let mut kept: Vec<String> = Vec::new();
        let mut i: usize = 0;
        while i < self.known.len()
            invariant
                i <= self.known.len(),
                self.known == old(self).known,
                forall|id: Seq<char>| #[trigger]
                    before.knows(id) ==> id_set(self.known@).contains(id),
                self.repls@ == before.repls.remove_keys(gone),
                self.black_list@ == before.black_list.difference(gone),
                forall|id: Seq<char>| #[trigger] gone.contains(id) ==> !devices@.contains(id),
                forall|j: int|
                    0 <= j < i && !devices@.contains(#[trigger] self.known@[j]@)
                        ==> gone.contains(self.known@[j]@),
                forall|j: int|
                    0 <= j < i && devices@.contains(#[trigger] self.known@[j]@) ==> id_set(
                        kept@,
                    ).contains(self.known@[j]@),
            decreases self.known.len() - i,
        {
            let id = self.known[i].clone();
            if devices.contains(id.as_str()) {
                let ghost earlier = kept@;
                kept.push(id);
                proof {
                    assert(kept@[earlier.len() as int]@ == self.known@[i as int]@);
                    assert forall|x: Seq<char>| id_set(earlier).contains(x) implies id_set(
                        kept@,
                    ).contains(x) by {
                        let j = choose|j: int| 0 <= j < earlier.len() && #[trigger] earlier[j]@ == x;
                        assert(kept@[j]@ == x);
                    }
                }
            } else {
                self.repls.remove(id.as_str());
                self.black_list.remove(id.as_str());
                proof {
                    assert(self.repls@ =~= before.repls.remove_keys(gone.insert(id@)));
                    assert(self.black_list@ =~= before.black_list.difference(gone.insert(id@)));
                    gone = gone.insert(id@);
                }
            }
            i += 1;
        }
        proof {
            assert forall|id: Seq<char>| #[trigger] before.knows(id) && !devices@.contains(id)
                implies gone.contains(id) by {
                let j = choose|j: int| 0 <= j < self.known@.len() && #[trigger] self.known@[j]@ == id;
                assert(!devices@.contains(self.known@[j]@));
            }
            assert forall|id: Seq<char>| #[trigger]
                before.repls.contains_key(id) && !devices@.contains(id) implies gone.contains(
                id,
            ) by {
                assert(before.knows(id));
            }
            assert forall|id: Seq<char>| #[trigger]
                before.black_list.contains(id) && !devices@.contains(id) implies gone.contains(
                id,
            ) by {
                assert(before.knows(id));
            }
            assert(self.repls@ =~= before.repls.restrict(devices@));
            assert(self.black_list@ =~= before.black_list.intersect(devices@));
            assert forall|id: Seq<char>| #[trigger] self@.knows(id) implies id_set(kept@).contains(
                id,
            ) by {
                assert(before.knows(id));
                let j = choose|j: int| 0 <= j < self.known@.len() && #[trigger] self.known@[j]@ == id;
                assert(devices@.contains(self.known@[j]@));
            }
        }
        let ghost names_kept = kept@;
        let ghost held = self@;
        self.known = kept;
        proof {
            assert(self@ == held);
            assert forall|id: Seq<char>| #[trigger] self@.knows(id) implies id_set(
                self.known@,
            ).contains(id) by {
                assert(held.knows(id));
                assert(id_set(names_kept).contains(id));
            }
        }
    }
}

/// The set of the visible devices.
fn device_set(visible: &Vec<String>) -> (devices: StringHashSet)
    ensures
        devices@ == id_set(visible@),
{
    let mut devices = StringHashSet::new();
    let mut k: usize = 0;
    while k < visible.len()
        invariant
            k <= visible.len(),
            devices@ == id_set(visible@.subrange(0, k as int)),
        decreases visible.len() - k,
    {
        devices.insert(visible[k].clone());
        proof {
            let shorter = visible@.subrange(0, k as int);
            let longer = visible@.subrange(0, k + 1);
            assert forall|id: Seq<char>| devices@.contains(id) <==> id_set(longer).contains(id) by {
                if id_set(shorter).contains(id) {
                    let j = choose|j: int| 0 <= j < shorter.len() && #[trigger] shorter[j]@ == id;
                    assert(longer[j]@ == id);
                }
                if id == visible@[k as int]@ {
                    assert(longer[k as int]@ == id);
                }
                if id_set(longer).contains(id) {
                    let j = choose|j: int| 0 <= j < longer.len() && #[trigger] longer[j]@ == id;
                    if j < k {
                        assert(shorter[j]@ == id);
                    }
                }
            }
            assert(devices@ =~= id_set(longer));
        }
        k += 1;
    }
    proof {
        assert(visible@.subrange(0, visible@.len() as int) == visible@);
        assert(id_set(visible@.subrange(0, 0)) =~= Set::<Seq<char>>::empty()) by {
        }
    }
    devices
}

} // verus!

verus! {

/// A device is asked for exactly when it is visible and not known.
pub proof fn lemma_wanted_iff_visible_and_unknown<H>(
    registry: RegistryView<H>,
    visible: Seq<String>,
    id: Seq<char>,
)
    ensures
        registry.wanted(visible).contains(id) <==> id_set(visible).contains(id) && !registry.knows(
            id,
        ),
    decreases visible.len(),
{
    if visible.len() > 0 {
        let shorter = visible.drop_last();
        let earlier = registry.wanted(shorter);
        lemma_wanted_iff_visible_and_unknown(registry, shorter, id);
        if id_set(shorter).contains(id) {
            let j = choose|j: int| 0 <= j < shorter.len() && #[trigger] shorter[j]@ == id;
            assert(visible[j]@ == id);
        }
        if id_set(visible).contains(id) && !id_set(shorter).contains(id) {
            let j = choose|j: int| 0 <= j < visible.len() && #[trigger] visible[j]@ == id;
            if j < shorter.len() {
                assert(shorter[j]@ == id);
            }
            assert(visible.last()@ == id);
        }
        if visible.last()@ == id {
            assert(visible[visible.len() - 1]@ == id);
        }
        if !registry.knows(visible.last()@) && !earlier.contains(visible.last()@) {
            let longer = earlier.push(visible.last()@);
            assert(longer[earlier.len() as int] == visible.last()@);
            if earlier.contains(id) {
                let j = choose|j: int| 0 <= j < earlier.len() && earlier[j] == id;
                assert(longer[j] == id);
            }
        }
    }
}

/// Connection attempts never touch a device that is already known: its
/// session stays the same one, and it stays on the blacklist if it was there.
pub proof fn lemma_record_all_keeps_known<H>(
    registry: RegistryView<H>,
    visible: Set<Seq<char>>,
    outcomes: Seq<(String, Result<H, SessionError>)>,
    id: Seq<char>,
)
    requires
        registry.knows(id),
    ensures
        registry.record_all(visible, outcomes).repls.contains_key(id)
            == registry.repls.contains_key(id),
        registry.repls.contains_key(id) ==> registry.record_all(visible, outcomes).repls[id]
            == registry.repls[id],
        registry.record_all(visible, outcomes).black_list.contains(id)
            == registry.black_list.contains(id),
    decreases outcomes.len(),
{
    if outcomes.len() > 0 {
        lemma_record_all_keeps_known(registry, visible, outcomes.drop_last(), id);
    }
}

/// Connection attempts leave alone every device that none of them names.
pub proof fn lemma_record_all_skips_unnamed<H>(
    registry: RegistryView<H>,
    visible: Set<Seq<char>>,
    outcomes: Seq<(String, Result<H, SessionError>)>,
    id: Seq<char>,
)
    requires
        forall|j: int| 0 <= j < outcomes.len() ==> (#[trigger] outcomes[j]).0@ != id,
    ensures
        registry.record_all(visible, outcomes).knows(id) == registry.knows(id),
    decreases outcomes.len(),
{
    if outcomes.len() > 0 {
        let shorter = outcomes.drop_last();
        assert forall|j: int| 0 <= j < shorter.len() implies (#[trigger] shorter[j]).0@ != id by {
            assert(shorter[j] == outcomes[j]);
        }
        lemma_record_all_skips_unnamed(registry, visible, shorter, id);
        assert(outcomes.last() == outcomes[outcomes.len() - 1]);
    }
}

/// A device that has a session and is visible again keeps that very
/// session through the pass, and the pass does not ask to connect to it.
pub proof fn lemma_present_device_keeps_its_session<H>(
    registry: RegistryView<H>,
    visible: Seq<String>,
    outcomes: Seq<(String, Result<H, SessionError>)>,
    id: Seq<char>,
)
    requires
        registry.repls.contains_key(id),
        id_set(visible).contains(id),
    ensures
        !registry.wanted(visible).contains(id),
        registry.after_pass(visible, outcomes).repls.contains_key(id),
        registry.after_pass(visible, outcomes).repls[id] == registry.repls[id],
{
    lemma_wanted_iff_visible_and_unknown(registry, visible, id);
    lemma_record_all_keeps_known(registry, id_set(visible), outcomes, id);
}

/// A device that is not visible in a pass has neither a session nor a place
/// on the blacklist when the pass ends.
pub proof fn lemma_absent_device_is_forgotten<H>(
    registry: RegistryView<H>,
    visible: Seq<String>,
    outcomes: Seq<(String, Result<H, SessionError>)>,
    id: Seq<char>,
)
    requires
        !id_set(visible).contains(id),
    ensures
        !registry.after_pass(visible, outcomes).repls.contains_key(id),
        !registry.after_pass(visible, outcomes).black_list.contains(id),
        !registry.after_pass(visible, outcomes).knows(id),
{
}

/// A visible, unknown device whose first connection attempt in a pass fails
/// is on the blacklist when the pass ends, and no later pass asks to connect
/// to it while it stays there.
pub proof fn lemma_failed_device_is_not_retried<H>(
    registry: RegistryView<H>,
    visible: Seq<String>,
    outcomes: Seq<(String, Result<H, SessionError>)>,
    attempt: int,
    next_visible: Seq<String>,
)
    requires
        0 <= attempt < outcomes.len(),
        outcomes[attempt].1 is Err,
        forall|j: int| 0 <= j < attempt ==> (#[trigger] outcomes[j]).0@ != outcomes[attempt].0@,
        id_set(visible).contains(outcomes[attempt].0@),
        !registry.knows(outcomes[attempt].0@),
    ensures
        registry.after_pass(visible, outcomes).black_list.contains(outcomes[attempt].0@),
        !registry.after_pass(visible, outcomes).repls.contains_key(outcomes[attempt].0@),
        !registry.after_pass(visible, outcomes).wanted(next_visible).contains(
            outcomes[attempt].0@,
        ),
{
    let id = outcomes[attempt].0@;
    let devices = id_set(visible);
    let before = outcomes.subrange(0, attempt);
    let upto = outcomes.subrange(0, attempt + 1);
    assert forall|j: int| 0 <= j < before.len() implies (#[trigger] before[j]).0@ != id by {
        assert(before[j] == outcomes[j]);
    }
    lemma_record_all_skips_unnamed(registry, devices, before, id);
    assert(upto.drop_last() == before);
    assert(upto.last() == outcomes[attempt]);
    let failed = registry.record_all(devices, upto);
    assert(failed.black_list.contains(id));
    assert(!failed.repls.contains_key(id));
    lemma_record_all_from(registry, devices, outcomes, attempt + 1);
    lemma_record_all_keeps_known(failed, devices, outcomes.subrange(attempt + 1, outcomes.len() as int), id);
    lemma_wanted_iff_visible_and_unknown(registry.after_pass(visible, outcomes), next_visible, id);
}

/// Taking a list of attempts is taking its first part and then the rest.
pub proof fn lemma_record_all_from<H>(
    registry: RegistryView<H>,
    visible: Set<Seq<char>>,
    outcomes: Seq<(String, Result<H, SessionError>)>,
    cut: int,
)
    requires
        0 <= cut <= outcomes.len(),
    ensures
        registry.record_all(visible, outcomes) == registry.record_all(
            visible,
            outcomes.subrange(0, cut),
        ).record_all(visible, outcomes.subrange(cut, outcomes.len() as int)),
    decreases outcomes.len() - cut,
{
    let rest = outcomes.subrange(cut, outcomes.len() as int);
    if cut == outcomes.len() {
        assert(outcomes.subrange(0, cut) == outcomes);
    } else {
        let shorter = outcomes.drop_last();
        lemma_record_all_from(registry, visible, shorter, cut);
        assert(shorter.subrange(0, cut) == outcomes.subrange(0, cut));
        assert(shorter.subrange(cut, shorter.len() as int) == rest.drop_last());
        assert(rest.last() == outcomes.last());
    }
}

/// A device that was not visible in one pass is asked for again in the
/// next pass in which it is visible, whatever happened to it before.
pub proof fn lemma_reattached_device_is_retried<H>(
    registry: RegistryView<H>,
    visible: Seq<String>,
    outcomes: Seq<(String, Result<H, SessionError>)>,
    next_visible: Seq<String>,
    id: Seq<char>,
)
    requires
        !id_set(visible).contains(id),
        id_set(next_visible).contains(id),
    ensures
        registry.after_pass(visible, outcomes).wanted(next_visible).contains(id),
{
    lemma_wanted_iff_visible_and_unknown(registry.after_pass(visible, outcomes), next_visible, id);
}

} // verus!

verus! {

impl<H> RegistryView<H> {
    /// No device both has a session and is blacklisted.
    pub open spec fn one_place_each(self) -> bool {
        forall|id: Seq<char>|
            !(#[trigger] self.repls.contains_key(id) && self.black_list.contains(id))
    }
}

/// Connection attempts keep every device in one place at most.
pub proof fn lemma_record_all_keeps_one_place<H>(
    registry: RegistryView<H>,
    visible: Set<Seq<char>>,
    outcomes: Seq<(String, Result<H, SessionError>)>,
)
    requires
        registry.one_place_each(),
    ensures
        registry.record_all(visible, outcomes).one_place_each(),
    decreases outcomes.len(),
{
    if outcomes.len() > 0 {
        lemma_record_all_keeps_one_place(registry, visible, outcomes.drop_last());
        let earlier = registry.record_all(visible, outcomes.drop_last());
        let later = registry.record_all(visible, outcomes);
        assert forall|id: Seq<char>|
            !(#[trigger] later.repls.contains_key(id) && later.black_list.contains(id)) by {
            assert(!(earlier.repls.contains_key(id) && earlier.black_list.contains(id)));
        }
    }
}

/// After a pass every device that the registry knows is visible, and a
/// registry in which no device both had a session and was blacklisted is
/// still such a registry: each attached device has one session at most.
pub proof fn lemma_pass_keeps_one_place<H>(
    registry: RegistryView<H>,
    visible: Seq<String>,
    outcomes: Seq<(String, Result<H, SessionError>)>,
)
    requires
        registry.one_place_each(),
    ensures
        registry.after_pass(visible, outcomes).one_place_each(),
        forall|id: Seq<char>| #[trigger]
            registry.after_pass(visible, outcomes).knows(id) ==> id_set(visible).contains(id),
{
    lemma_record_all_keeps_one_place(registry, id_set(visible), outcomes);
    let recorded = registry.record_all(id_set(visible), outcomes);
    let after = registry.after_pass(visible, outcomes);
    assert forall|id: Seq<char>|
        !(#[trigger] after.repls.contains_key(id) && after.black_list.contains(id)) by {
        assert(!(recorded.repls.contains_key(id) && recorded.black_list.contains(id)));
    }
}

} // verus!

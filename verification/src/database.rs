//! The swap store: the latest role-tagged state of every swap and the peer
//! that each swap is carried out with.
//!
//! The store lives in memory and is the single owner of its records. What it
//! holds is written to and read back from durable storage by the embedding
//! program, through `open` and the two `*_records` listings.

use crate::keyed::{
    distinct_keys, has_key, lemma_entry, lemma_listing_restores, lemma_lists, lists, position,
    to_map, Keyed,
};
use libp2p::PeerId;
use vstd::prelude::*;

verus! {

/// `libp2p::PeerId`, the network identity of a peer, declared so that its
/// values can be stored and handed back. Nothing is claimed of what a value
/// holds.
#[verifier::external_type_specification]
#[verifier::external_body]
pub struct ExPeerId(PeerId);

/// Final outcome of a swap for Alice.
#[derive(Clone, Copy, Debug, PartialEq, Eq, Structural)]
pub enum AliceEndState {
    SafelyAborted,
    BtcRedeemed,
    XmrRefunded,
    BtcPunished,
}

/// Protocol state of Alice, the initiating role. The states name the
/// stages of the swap; the last one is terminal.
#[derive(Clone, Copy, Debug, PartialEq, Eq, Structural)]
pub enum Alice {
    Started,
    Negotiated,
    BtcLocked,
    XmrLocked,
    EncSigLearned,
    CancelTimelockExpired,
    BtcCancelled,
    BtcPunishable,
    BtcRefunded,
    /// The swap is over, with this outcome.
    Done(AliceEndState),
}

/// Final outcome of a swap for Bob.
#[derive(Clone, Copy, Debug, PartialEq, Eq, Structural)]
pub enum BobEndState {
    SafelyAborted,
    XmrRedeemed,
    BtcRefunded,
    BtcPunished,
}

/// Protocol state of Bob, the responding role. The states name the stages
/// of the swap; the last one is terminal.
#[derive(Clone, Copy, Debug, PartialEq, Eq, Structural)]
pub enum Bob {
    Started,
    Negotiated,
    BtcLocked,
    XmrLocked,
    EncSigSent,
    BtcRedeemed,
    CancelTimelockExpired,
    BtcCancelled,
    /// The swap is over, with this outcome.
    Done(BobEndState),
}

/// The state of one swap, tagged with the role that this node plays in it.
#[derive(Clone, Copy, Debug, PartialEq, Eq, Structural)]
pub enum Swap {
    Alice(Alice),
    Bob(Bob),
}

/// A record was asked for in a role that it does not have.
#[derive(Clone, Copy, Debug, PartialEq, Eq, Structural)]
pub enum RoleMismatchError {
    /// The record belongs to Bob.
    NotInitiator,
    /// The record belongs to Alice.
    NotResponder,
}

/// Why a store operation failed.
#[derive(Clone, Copy, Debug, PartialEq, Eq, Structural)]
pub enum StorageError {
    /// The backing storage could not be opened, or what it holds is no store.
    Open,
    /// A key or a value could not be encoded or decoded.
    Serialize,
    /// The durable flush did not complete.
    Flush,
    /// The stored value is not the one that the writer expected.
    Conflict,
    /// Nothing is stored under the identifier.
    NotFound,
}

impl From<Alice> for Swap {
    fn from(from: Alice) -> (swap: Self) {
        Swap::Alice(from)
    }
}

impl vstd::std_specs::convert::FromSpecImpl<Alice> for Swap {
    open spec fn obeys_from_spec() -> bool {
        true
    }

    open spec fn from_spec(from: Alice) -> Self {
        Swap::Alice(from)
    }
}

impl From<Bob> for Swap {
    fn from(from: Bob) -> (swap: Self) {
        Swap::Bob(from)
    }
}

impl vstd::std_specs::convert::FromSpecImpl<Bob> for Swap {
    open spec fn obeys_from_spec() -> bool {
        true
    }

    open spec fn from_spec(from: Bob) -> Self {
        Swap::Bob(from)
    }
}

impl Swap {
    /// Whether the swap has reached its terminal state.
    pub open spec fn is_done(self) -> bool {
        match self {
            Swap::Alice(alice) => alice is Done,
            Swap::Bob(bob) => bob is Done,
        }
    }

    /// The state of Alice, if the record is hers.
    pub fn try_into_alice(self) -> (alice: Result<Alice, RoleMismatchError>)
        ensures
            match self {
                Swap::Alice(state) => alice == Ok::<Alice, RoleMismatchError>(state),
                Swap::Bob(_) => alice == Err::<Alice, RoleMismatchError>(
                    RoleMismatchError::NotInitiator,
                ),
            },
    {
        match self {
            Swap::Alice(alice) => Ok(alice),
            Swap::Bob(_) => Err(RoleMismatchError::NotInitiator),
        }
    }

    /// The state of Bob, if the record is his.
    pub fn try_into_bob(self) -> (bob: Result<Bob, RoleMismatchError>)
        ensures
            match self {
                Swap::Bob(state) => bob == Ok::<Bob, RoleMismatchError>(state),
                Swap::Alice(_) => bob == Err::<Bob, RoleMismatchError>(
                    RoleMismatchError::NotResponder,
                ),
            },
    {
        match self {
            Swap::Bob(bob) => Ok(bob),
            Swap::Alice(_) => Err(RoleMismatchError::NotResponder),
        }
    }
}

/// What `get_state` answers on a store that holds `swaps`.
pub open spec fn stored_state(swaps: Map<u128, Swap>, swap_id: u128) -> Result<Swap, StorageError> {
    if swaps.contains_key(swap_id) {
        Ok(swaps[swap_id])
    } else {
        Err(StorageError::NotFound)
    }
}

/// What `get_peer_id` answers on a store that holds `peers`.
pub open spec fn stored_peer(peers: Map<u128, PeerId>, swap_id: u128) -> Result<
    PeerId,
    StorageError,
> {
    if peers.contains_key(swap_id) {
        Ok(peers[swap_id])
    } else {
        Err(StorageError::NotFound)
    }
}

/// The record that a writer finds under `swap_id` before it writes.
pub open spec fn current_state(swaps: Map<u128, Swap>, swap_id: u128) -> Option<Swap> {
    if swaps.contains_key(swap_id) {
        Some(swaps[swap_id])
    } else {
        None
    }
}

/// The conditional write: what the store holds afterwards, and what the
/// writer is told. The write takes place only if the record under `swap_id`
/// is still the one that the writer expected.
pub open spec fn conditional_write(
    swaps: Map<u128, Swap>,
    swap_id: u128,
    expected: Option<Swap>,
    state: Swap,
) -> (Map<u128, Swap>, Result<(), StorageError>) {
    if current_state(swaps, swap_id) == expected {
        (swaps.insert(swap_id, state), Ok(()))
    } else {
        (swaps, Err(StorageError::Conflict))
    }
}

/// The records of `swaps` that have not reached their terminal state.
pub open spec fn unfinished(swaps: Map<u128, Swap>) -> Map<u128, Swap> {
    Map::new(
        |swap_id: u128| swaps.contains_key(swap_id) && !swaps[swap_id].is_done(),
        |swap_id: u128| swaps[swap_id],
    )
}

/// Whether every record of `swaps` belongs to Alice.
pub open spec fn all_initiator(swaps: Map<u128, Swap>) -> bool {
    forall|swap_id: u128| swaps.contains_key(swap_id) ==> #[trigger] swaps[swap_id] is Alice
}

/// Whether every record of `swaps` belongs to Bob.
pub open spec fn all_responder(swaps: Map<u128, Swap>) -> bool {
    forall|swap_id: u128| swaps.contains_key(swap_id) ==> #[trigger] swaps[swap_id] is Bob
}

/// A listing of Alice states as role-tagged records.
pub open spec fn as_alice_records(list: Seq<(u128, Alice)>) -> Seq<(u128, Swap)> {
    list.map_values(|entry: (u128, Alice)| (entry.0, Swap::Alice(entry.1)))
}

/// A listing of Bob states as role-tagged records.
pub open spec fn as_bob_records(list: Seq<(u128, Bob)>) -> Seq<(u128, Swap)> {
    list.map_values(|entry: (u128, Bob)| (entry.0, Swap::Bob(entry.1)))
}

/// Round trip: a state that was written under an identifier is the state
/// that is read back under it, and no other identifier is affected.
pub proof fn lemma_write_then_read(swaps: Map<u128, Swap>, swap_id: u128, state: Swap)
    ensures
        stored_state(swaps.insert(swap_id, state), swap_id) == Ok::<Swap, StorageError>(state),
        forall|other: u128|
            other != swap_id ==> #[trigger] stored_state(swaps.insert(swap_id, state), other)
                == stored_state(swaps, other),
{
}

/// Conflict detection: of two writers that found the same record under an
/// identifier, the one that writes first succeeds and the other is told
/// `Conflict`; the store then holds what the first one wrote. This needs the
/// first writer to change the record: one that writes back what it found
/// leaves the second writer's expectation intact.
pub proof fn lemma_one_writer_wins(swaps: Map<u128, Swap>, swap_id: u128, first: Swap, second: Swap)
    requires
        current_state(swaps, swap_id) != Some(first),
    ensures
        ({
            let found = current_state(swaps, swap_id);
            let (after_first, first_done) = conditional_write(swaps, swap_id, found, first);
            let (after_second, second_done) = conditional_write(
                after_first,
                swap_id,
                found,
                second,
            );
            &&& first_done is Ok
            &&& second_done == Err::<(), StorageError>(StorageError::Conflict)
            &&& after_second == swaps.insert(swap_id, first)
            &&& stored_state(after_second, swap_id) == Ok::<Swap, StorageError>(first)
        }),
{
}

/// Role purity: a store that holds an Alice record and a Bob record is
/// neither all Alice's nor all Bob's, so neither listing by role succeeds.
pub proof fn lemma_mixed_roles(
    swaps: Map<u128, Swap>,
    alice_id: u128,
    alice: Alice,
    bob_id: u128,
    bob: Bob,
)
    requires
        alice_id != bob_id,
    ensures
        !all_initiator(swaps.insert(alice_id, Swap::Alice(alice)).insert(bob_id, Swap::Bob(bob))),
        !all_responder(swaps.insert(alice_id, Swap::Alice(alice)).insert(bob_id, Swap::Bob(bob))),
{
    let mixed = swaps.insert(alice_id, Swap::Alice(alice)).insert(bob_id, Swap::Bob(bob));
    assert(mixed.contains_key(alice_id) && mixed[alice_id] is Alice);
    assert(mixed.contains_key(bob_id) && mixed[bob_id] is Bob);
}

/// Reopening: the two listings of a store are records over which `open`
/// succeeds, and the store that it builds holds what the listed one held.
pub proof fn lemma_reopen_restores(
    swaps: Map<u128, Swap>,
    peers: Map<u128, PeerId>,
    swap_records: Seq<(u128, Swap)>,
    peer_records: Seq<(u128, PeerId)>,
)
    requires
        lists(swap_records, swaps),
        lists(peer_records, peers),
    ensures
        distinct_keys(swap_records),
        distinct_keys(peer_records),
        to_map(swap_records) == swaps,
        to_map(peer_records) == peers,
{
    lemma_listing_restores(swap_records, swaps);
    lemma_listing_restores(peer_records, peers);
}

/// The swap store. It maps swap identifiers to the latest state of the swap
/// and to the identity of the peer, in two independent namespaces.
pub struct Database {
    swaps: Keyed<Swap>,
    peers: Keyed<PeerId>,
}

/// What a store holds: two mappings from swap identifiers.
pub struct DatabaseView {
    /// The latest state of every swap.
    pub swaps: Map<u128, Swap>,
    /// The peer of every swap for which one was stored.
    pub peers: Map<u128, PeerId>,
}

impl View for Database {
    type V = DatabaseView;

    closed spec fn view(&self) -> DatabaseView {
        DatabaseView { swaps: self.swaps.map(), peers: self.peers.map() }
    }
}

impl Database {
    #[verifier::type_invariant]
    spec fn well_formed(self) -> bool {
        self.swaps.wf() && self.peers.wf()
    }

    /// The latest state of every swap.
    pub open spec fn swaps(&self) -> Map<u128, Swap> {
        self@.swaps
    }

    /// The peer of every swap for which one was stored.
    pub open spec fn peers(&self) -> Map<u128, PeerId> {
        self@.peers
    }

    /// Opens the store over the records that the backing storage holds, in
    /// whatever order they were read. Fails with `Open` when two records of a
    /// namespace share an identifier: that is no store.
    pub fn open(swaps: &Vec<(u128, Swap)>, peers: &Vec<(u128, PeerId)>) -> (db: Result<
        Self,
        StorageError,
    >)
        ensures
            db is Ok <==> distinct_keys(swaps@) && distinct_keys(peers@),
            db matches Ok(d) ==> d.swaps() == to_map(swaps@) && d.peers() == to_map(peers@),
            db matches Err(e) ==> e == StorageError::Open,
    {
        match (Keyed::from_entries(swaps), Keyed::from_entries(peers)) {
            (Some(swaps), Some(peers)) => Ok(Database { swaps, peers }),
            _ => Err(StorageError::Open),
        }
    }

    /// The swap namespace as it is to be written to the backing storage:
    /// every record once, in ascending order of the identifiers.
    pub fn swap_records(&self) -> (list: Vec<(u128, Swap)>)
        ensures
            lists(list@, self.swaps()),
    {
        proof {
            use_type_invariant(self);
        }
        self.swaps.to_vec()
    }

    /// The peer namespace as it is to be written to the backing storage:
    /// every entry once, in ascending order of the identifiers.
    pub fn peer_records(&self) -> (list: Vec<(u128, PeerId)>)
        ensures
            lists(list@, self.peers()),
    {
        proof {
            use_type_invariant(self);
        }
        self.peers.to_vec()
    }

    /// Stores the peer of a swap. An identity, once stored, is never
    /// replaced: a second write for the same swap is refused with `Conflict`
    /// and changes nothing.
    pub fn insert_peer_id(&mut self, swap_id: u128, peer_id: PeerId) -> (done: Result<
        (),
        StorageError,
    >)
        ensures
            final(self).swaps() == old(self).swaps(),
            done is Ok <==> !old(self).peers().contains_key(swap_id),
            done is Ok ==> final(self).peers() == old(self).peers().insert(swap_id, peer_id),
            done matches Err(e) ==> e == StorageError::Conflict && final(self).peers() == old(
                self,
            ).peers(),
    {
        proof {
            use_type_invariant(&*self);
        }
        if self.peers.get(swap_id).is_some() {
            return Err(StorageError::Conflict);
        }
        let mut peers = Keyed::new();
        core::mem::swap(&mut self.peers, &mut peers);
        peers.put(swap_id, peer_id);
        core::mem::swap(&mut self.peers, &mut peers);
        Ok(())
    }

    /// The peer of a swap; `NotFound` if none was stored.
    pub fn get_peer_id(&self, swap_id: u128) -> (peer_id: Result<PeerId, StorageError>)
        ensures
            peer_id == stored_peer(self.peers(), swap_id),
    {
        proof {
            use_type_invariant(self);
        }
        match self.peers.get(swap_id) {
            Some(peer_id) => Ok(peer_id),
            None => Err(StorageError::NotFound),
        }
    }

    /// The record that a writer has to expect under `swap_id`.
    pub fn current(&self, swap_id: u128) -> (state: Option<Swap>)
        ensures
            state == current_state(self.swaps(), swap_id),
    {
        proof {
            use_type_invariant(self);
        }
        self.swaps.get(swap_id)
    }

    /// Writes `state` under `swap_id` if the record there is still
    /// `expected`; otherwise changes nothing and reports `Conflict`.
    pub fn compare_and_swap(
        &mut self,
        swap_id: u128,
        expected: Option<Swap>,
        state: Swap,
    ) -> (done: Result<(), StorageError>)
        ensures
            (final(self).swaps(), done) == conditional_write(
                old(self).swaps(),
                swap_id,
                expected,
                state,
            ),
            final(self).peers() == old(self).peers(),
    {
        proof {
            use_type_invariant(&*self);
        }
        let unchanged = match (self.swaps.get(swap_id), expected) {
            (Some(found), Some(wanted)) => found == wanted,
            (None, None) => true,
            _ => false,
        };
        if unchanged {
            let mut swaps = Keyed::new();
            core::mem::swap(&mut self.swaps, &mut swaps);
            swaps.put(swap_id, state);
            core::mem::swap(&mut self.swaps, &mut swaps);
            Ok(())
        } else {
            Err(StorageError::Conflict)
        }
    }

    /// Makes `state` the latest state of the swap: reads the record that is
    /// there, then writes on condition that it is still there.
    pub fn insert_latest_state(&mut self, swap_id: u128, state: Swap) -> (done: Result<
        (),
        StorageError,
    >)
        ensures
            done is Ok,
            final(self).swaps() == old(self).swaps().insert(swap_id, state),
            final(self).peers() == old(self).peers(),
    {
        let old_value = self.current(swap_id);
        self.compare_and_swap(swap_id, old_value, state)
    }

    /// The latest state of a swap; `NotFound` if none was stored.
    pub fn get_state(&self, swap_id: u128) -> (state: Result<Swap, StorageError>)
        ensures
            state == stored_state(self.swaps(), swap_id),
    {
        proof {
            use_type_invariant(self);
        }
        match self.swaps.get(swap_id) {
            Some(state) => Ok(state),
            None => Err(StorageError::NotFound),
        }
    }

    /// The Alice records, all of them or only the unfinished ones, provided
    /// that the store holds no record of the other role.
    fn alice_records(&self, only_unfinished: bool) -> (list: Result<
        Vec<(u128, Alice)>,
        RoleMismatchError,
    >)
        ensures
            list is Ok <==> all_initiator(self.swaps()),
            list matches Ok(v) ==> lists(
                as_alice_records(v@),
                if only_unfinished {
                    unfinished(self.swaps())
                } else {
                    self.swaps()
                },
            ),
            list matches Err(e) ==> e == RoleMismatchError::NotInitiator,
    {
        proof {
            use_type_invariant(self);
            lemma_lists(self.swaps.entries());
        }
        let ghost entries = self.swaps.entries();
        let ghost wanted = if only_unfinished {
            unfinished(self.swaps())
        } else {
            self.swaps()
        };
        let n = self.swaps.len();
        let mut out: Vec<(u128, Alice)> = Vec::new();
        let ghost mut from: Seq<int> = Seq::empty();
        let mut i: usize = 0;
        while i < n
            invariant
                entries == self.swaps.entries(),
                self.swaps() == to_map(entries),
                distinct_keys(entries),
                lists(entries, to_map(entries)),
                wanted == if only_unfinished {
                    unfinished(self.swaps())
                } else {
                    self.swaps()
                },
                n == entries.len(),
                i <= n,
                from.len() == out@.len(),
                forall|k: int|
                    0 <= k < out@.len() ==> 0 <= #[trigger] from[k] < i && entries[from[k]] == (
                        out@[k].0,
                        Swap::Alice(out@[k].1),
                    ) && wanted.contains_key(out@[k].0),
                forall|k: int, l: int| 0 <= k < l < out@.len() ==> #[trigger] from[k] < #[trigger] from[l],
                forall|j: int|
                    0 <= j < i ==> (#[trigger] entries[j]).1 is Alice && (wanted.contains_key(
                        entries[j].0,
                    ) ==> exists|k: int| 0 <= k < out@.len() && #[trigger] from[k] == j),
            decreases n - i,
        {
            let (swap_id, swap) = self.swaps.entry(i);
            proof {
                lemma_entry(entries, i as int);
            }
            match swap {
                Swap::Alice(state) => {
                    let finished = match state {
                        Alice::Done(_) => true,
                        _ => false,
                    };
                    if !(only_unfinished && finished) {
                        let ghost before = out@;
                        let ghost before_from = from;
                        out.push((swap_id, state));
                        proof {
                            from = from.push(i as int);
                            assert forall|j: int| 0 <= j < i + 1 implies (#[trigger] entries[j]).1 is Alice
                                && (wanted.contains_key(entries[j].0) ==> exists|k: int|
                                0 <= k < out@.len() && #[trigger] from[k] == j) by {
                                if j < i {
                                    if wanted.contains_key(entries[j].0) {
                                        let k = choose|k: int|
                                            0 <= k < before.len() && #[trigger] before_from[k]
                                                == j;
                                        assert(from[k] == j);
                                    }
                                } else {
                                    assert(from[out@.len() - 1] == j);
                                }
                            }
                        }
                    } else {
                        assert(!wanted.contains_key(swap_id));
                    }
                },
                Swap::Bob(_) => {
                    assert(self.swaps()[swap_id] is Bob);
                    return Err(RoleMismatchError::NotInitiator);
                },
            }
            i = i + 1;
        }
        proof {
            let recs = as_alice_records(out@);
            assert forall|swap_id: u128| self.swaps().contains_key(swap_id) implies #[trigger] self.swaps()[swap_id] is Alice by {
                let j = position(entries, swap_id);
                lemma_entry(entries, j);
            }
            assert forall|k: int, l: int| 0 <= k < l < recs.len() implies (#[trigger] recs[k]).0 < (
            #[trigger] recs[l]).0 by {
                assert(from[k] < from[l]);
                assert(entries[from[k]].0 < entries[from[l]].0);
            }
            assert forall|k: int| 0 <= k < recs.len() implies wanted.contains_key(
                (#[trigger] recs[k]).0,
            ) && wanted[recs[k].0] == recs[k].1 by {
                lemma_entry(entries, from[k]);
            }
            assert forall|swap_id: u128| wanted.contains_key(swap_id) implies has_key(
                recs,
                swap_id,
            ) by {
                let j = position(entries, swap_id);
                lemma_entry(entries, j);
                let k = choose|k: int| 0 <= k < out@.len() && #[trigger] from[k] == j;
                assert(recs[k].0 == swap_id);
            }
        }
        Ok(out)
    }

    /// The Bob records, all of them or only the unfinished ones, provided
    /// that the store holds no record of the other role.
    fn bob_records(&self, only_unfinished: bool) -> (list: Result<
        Vec<(u128, Bob)>,
        RoleMismatchError,
    >)
        ensures
            list is Ok <==> all_responder(self.swaps()),
            list matches Ok(v) ==> lists(
                as_bob_records(v@),
                if only_unfinished {
                    unfinished(self.swaps())
                } else {
                    self.swaps()
                },
            ),
            list matches Err(e) ==> e == RoleMismatchError::NotResponder,
    {
        proof {
            use_type_invariant(self);
            lemma_lists(self.swaps.entries());
        }
        let ghost entries = self.swaps.entries();
        let ghost wanted = if only_unfinished {
            unfinished(self.swaps())
        } else {
            self.swaps()
        };
        let n = self.swaps.len();
        let mut out: Vec<(u128, Bob)> = Vec::new();
        let ghost mut from: Seq<int> = Seq::empty();
        let mut i: usize = 0;
        while i < n
            invariant
                entries == self.swaps.entries(),
                self.swaps() == to_map(entries),
                distinct_keys(entries),
                lists(entries, to_map(entries)),
                wanted == if only_unfinished {
                    unfinished(self.swaps())
                } else {
                    self.swaps()
                },
                n == entries.len(),
                i <= n,
                from.len() == out@.len(),
                forall|k: int|
                    0 <= k < out@.len() ==> 0 <= #[trigger] from[k] < i && entries[from[k]] == (
                        out@[k].0,
                        Swap::Bob(out@[k].1),
                    ) && wanted.contains_key(out@[k].0),
                forall|k: int, l: int| 0 <= k < l < out@.len() ==> #[trigger] from[k] < #[trigger] from[l],
                forall|j: int|
                    0 <= j < i ==> (#[trigger] entries[j]).1 is Bob && (wanted.contains_key(
                        entries[j].0,
                    ) ==> exists|k: int| 0 <= k < out@.len() && #[trigger] from[k] == j),
            decreases n - i,
        {
            let (swap_id, swap) = self.swaps.entry(i);
            proof {
                lemma_entry(entries, i as int);
            }
            match swap {
                Swap::Bob(state) => {
                    let finished = match state {
                        Bob::Done(_) => true,
                        _ => false,
                    };
                    if !(only_unfinished && finished) {
                        let ghost before = out@;
                        let ghost before_from = from;
                        out.push((swap_id, state));
                        proof {
                            from = from.push(i as int);
                            assert forall|j: int| 0 <= j < i + 1 implies (#[trigger] entries[j]).1 is Bob
                                && (wanted.contains_key(entries[j].0) ==> exists|k: int|
                                0 <= k < out@.len() && #[trigger] from[k] == j) by {
                                if j < i {
                                    if wanted.contains_key(entries[j].0) {
                                        let k = choose|k: int|
                                            0 <= k < before.len() && #[trigger] before_from[k]
                                                == j;
                                        assert(from[k] == j);
                                    }
                                } else {
                                    assert(from[out@.len() - 1] == j);
                                }
                            }
                        }
                    } else {
                        assert(!wanted.contains_key(swap_id));
                    }
                },
                Swap::Alice(_) => {
                    assert(self.swaps()[swap_id] is Alice);
                    return Err(RoleMismatchError::NotResponder);
                },
            }
            i = i + 1;
        }
        proof {
            let recs = as_bob_records(out@);
            assert forall|swap_id: u128| self.swaps().contains_key(swap_id) implies #[trigger] self.swaps()[swap_id] is Bob by {
                let j = position(entries, swap_id);
                lemma_entry(entries, j);
            }
            assert forall|k: int, l: int| 0 <= k < l < recs.len() implies (#[trigger] recs[k]).0 < (
            #[trigger] recs[l]).0 by {
                assert(from[k] < from[l]);
                assert(entries[from[k]].0 < entries[from[l]].0);
            }
            assert forall|k: int| 0 <= k < recs.len() implies wanted.contains_key(
                (#[trigger] recs[k]).0,
            ) && wanted[recs[k].0] == recs[k].1 by {
                lemma_entry(entries, from[k]);
            }
            assert forall|swap_id: u128| wanted.contains_key(swap_id) implies has_key(
                recs,
                swap_id,
            ) by {
                let j = position(entries, swap_id);
                lemma_entry(entries, j);
                let k = choose|k: int| 0 <= k < out@.len() && #[trigger] from[k] == j;
                assert(recs[k].0 == swap_id);
            }
        }
        Ok(out)
    }

    /// Every record as an Alice state, in ascending order of the
    /// identifiers. A single Bob record fails the whole listing.
    pub fn all_alice(&self) -> (list: Result<Vec<(u128, Alice)>, RoleMismatchError>)
        ensures
            list is Ok <==> all_initiator(self.swaps()),
            list matches Ok(v) ==> lists(as_alice_records(v@), self.swaps()),
            list matches Err(e) ==> e == RoleMismatchError::NotInitiator,
    {
        self.alice_records(false)
    }

    /// Every record as a Bob state, in ascending order of the identifiers.
    /// A single Alice record fails the whole listing.
    pub fn all_bob(&self) -> (list: Result<Vec<(u128, Bob)>, RoleMismatchError>)
        ensures
            list is Ok <==> all_responder(self.swaps()),
            list matches Ok(v) ==> lists(as_bob_records(v@), self.swaps()),
            list matches Err(e) ==> e == RoleMismatchError::NotResponder,
    {
        self.bob_records(false)
    }

    /// As `all_alice`, without the swaps that are done.
    pub fn unfinished_alice(&self) -> (list: Result<Vec<(u128, Alice)>, RoleMismatchError>)
        ensures
            list is Ok <==> all_initiator(self.swaps()),
            list matches Ok(v) ==> lists(as_alice_records(v@), unfinished(self.swaps())),
            list matches Err(e) ==> e == RoleMismatchError::NotInitiator,
    {
        self.alice_records(true)
    }

    /// As `all_bob`, without the swaps that are done.
    pub fn unfinished_bob(&self) -> (list: Result<Vec<(u128, Bob)>, RoleMismatchError>)
        ensures
            list is Ok <==> all_responder(self.swaps()),
            list matches Ok(v) ==> lists(as_bob_records(v@), unfinished(self.swaps())),
            list matches Err(e) ==> e == RoleMismatchError::NotResponder,
    {
        self.bob_records(true)
    }
}

} // verus!

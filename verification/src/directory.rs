//! Rendezvous directory: a registry of shards. Participants publish an
//! identity to a shard; a shard becomes readable once it holds as many
//! identities as its target size asks for.

use vstd::prelude::*;

verus! {

/// Tag of the shard on which servers register.
pub const SERVER_SHARD: usize = 0;

/// Tag of the shard on which broker processes register.
pub const BROKER_SHARD: usize = 1;

/// What a shard is, mathematically: its target size and the identities
/// published to it, in the order of their arrival.
pub struct ShardView {
    pub target: nat,
    pub members: Seq<u64>,
}

/// Whether `identity` is registered in some shard of `shards`.
pub open spec fn registered(shards: Seq<ShardView>, identity: u64) -> bool {
    exists|t: int| 0 <= t < shards.len() && #[trigger] shards[t].members.contains(identity)
}

/// Whether shard `tag` holds as many identities as its target asks for.
pub open spec fn shard_ready(shards: Seq<ShardView>, tag: int) -> bool {
    0 <= tag < shards.len() && shards[tag].members.len() >= shards[tag].target
}

/// The invariant of a directory's shards: no shard holds more identities than
/// its target, and no identity is registered twice, neither within a shard
/// nor across shards.
pub open spec fn shards_wf(shards: Seq<ShardView>) -> bool {
    &&& forall|t: int| 0 <= t < shards.len() ==> (#[trigger] shards[t]).members.len() <= shards[t].target
    &&& forall|t: int| 0 <= t < shards.len() ==> (#[trigger] shards[t]).members.no_duplicates()
    &&& forall|t1: int, t2: int, identity: u64|
        0 <= t1 < shards.len() && 0 <= t2 < shards.len() && t1 != t2
            && #[trigger] shards[t1].members.contains(identity) ==> !(#[trigger] shards[t2].members.contains(identity))
}

/// The shards of `shards` with `identity` appended to shard `tag`.
pub open spec fn with_member(shards: Seq<ShardView>, tag: int, identity: u64) -> Seq<ShardView> {
    shards.update(
        tag,
        ShardView { target: shards[tag].target, members: shards[tag].members.push(identity) },
    )
}

/// What publishing `identity` to shard `tag` does: the shards that follow, or
/// the reason for which the publication is turned down. An unknown tag is
/// seen first, then an identity that is registered already, then a shard
/// that is full.
pub open spec fn publication(shards: Seq<ShardView>, identity: u64, tag: nat) -> Result<
    Seq<ShardView>,
    PublishError,
> {
    if tag >= shards.len() {
        Err(PublishError::UnknownShard)
    } else if registered(shards, identity) {
        Err(PublishError::AlreadyPublished)
    } else if shard_ready(shards, tag as int) {
        Err(PublishError::ShardFull)
    } else {
        Ok(with_member(shards, tag as int, identity))
    }
}

/// What reading shard `tag` gives: its members once it is ready, else the
/// reason for which there is nothing to read yet.
pub open spec fn shard_reading(shards: Seq<ShardView>, tag: nat) -> Result<Seq<u64>, AwaitError> {
    if tag >= shards.len() {
        Err(AwaitError::UnknownShard)
    } else if !shard_ready(shards, tag as int) {
        Err(AwaitError::NotReady)
    } else {
        Ok(shards[tag as int].members)
    }
}

/// What publishing the identities of `identities` to shard `tag`, one after
/// the other, does: the shards that follow if every publication is taken,
/// else the reason for which the first one was turned down.
pub open spec fn publications(shards: Seq<ShardView>, identities: Seq<u64>, tag: nat) -> Result<
    Seq<ShardView>,
    PublishError,
>
    decreases identities.len(),
{
    if identities.len() == 0 {
        Ok(shards)
    } else {
        match publications(shards, identities.drop_last(), tag) {
            Ok(before) => publication(before, identities.last(), tag),
            Err(error) => Err(error),
        }
    }
}

/// Appending an identity that is not yet registered to a shard that is not
/// yet full keeps the invariant of the shards.
pub proof fn lemma_publication_keeps_invariant(shards: Seq<ShardView>, tag: int, identity: u64)
    requires
        shards_wf(shards),
        0 <= tag < shards.len(),
        !registered(shards, identity),
        !shard_ready(shards, tag),
    ensures
        shards_wf(with_member(shards, tag, identity)),
{
    let after = with_member(shards, tag, identity);
    assert forall|t: int, x: u64| 0 <= t < after.len() implies (after[t].members.contains(x) <==> (
        shards[t].members.contains(x) || (t == tag && x == identity))) by {
        if t == tag {
            let before = shards[tag].members;
            if before.contains(x) {
                let i = choose|i: int| 0 <= i < before.len() && before[i] == x;
                assert(after[t].members[i] == x);
            }
            if x == identity {
                assert(after[t].members[before.len() as int] == x);
            }
        }
    }
    assert(!shards[tag].members.contains(identity));
    assert forall|t: int| 0 <= t < after.len() implies (#[trigger] after[t]).members.no_duplicates() by {
        assert(shards[t].members.no_duplicates());
    }
    assert forall|t1: int, t2: int, x: u64|
        0 <= t1 < after.len() && 0 <= t2 < after.len() && t1 != t2
            && #[trigger] after[t1].members.contains(x) implies !(#[trigger] after[t2].members.contains(x)) by {
        assert(!shards[t1].members.contains(identity));
        assert(!shards[t2].members.contains(identity));
        if shards[t1].members.contains(x) {
            assert(!shards[t2].members.contains(x));
        }
    }
    assert forall|t: int| 0 <= t < after.len() implies (#[trigger] after[t]).members.len() <= after[t].target by {
        assert(shards[t].members.len() <= shards[t].target);
    }
}

/// A shard is read exactly when the number of its members has reached its
/// target; until then the answer is `NotReady`. What is read is the full list
/// of members.
pub proof fn lemma_reading_waits_for_target(shards: Seq<ShardView>, tag: nat)
    requires
        shards_wf(shards),
        tag < shards.len(),
    ensures
        shards[tag as int].members.len() < shards[tag as int].target ==> shard_reading(shards, tag)
            == Err::<Seq<u64>, AwaitError>(AwaitError::NotReady),
        shards[tag as int].members.len() == shards[tag as int].target ==> shard_reading(shards, tag)
            == Ok::<Seq<u64>, AwaitError>(shards[tag as int].members),
        shards[tag as int].members.len() <= shards[tag as int].target,
{
}

/// A publication that is taken appends to one shard and changes nothing
/// else: no target changes, no shard loses a member, and a shard that could
/// be read before reads the same afterwards.
pub proof fn lemma_publication_appends(
    shards: Seq<ShardView>,
    identity: u64,
    tag: nat,
    other: nat,
)
    requires
        shards_wf(shards),
        publication(shards, identity, tag) is Ok,
        other < shards.len(),
    ensures
        ({
            let after = publication(shards, identity, tag)->Ok_0;
            &&& shards_wf(after)
            &&& after.len() == shards.len()
            &&& after[other as int].target == shards[other as int].target
            &&& after[other as int].members == if other == tag {
                shards[other as int].members.push(identity)
            } else {
                shards[other as int].members
            }
            &&& shard_reading(shards, other) is Ok ==> shard_reading(after, other)
                == shard_reading(shards, other)
        }),
{
    lemma_publication_keeps_invariant(shards, tag as int, identity);
}

/// Identities that are new to the directory and distinct from each other
/// are all taken by a shard that has room for them, in their order: the
/// shard then holds its former members followed by them, and it can be read
/// exactly if that fills it to its target.
pub proof fn lemma_shard_fills_in_order(shards: Seq<ShardView>, identities: Seq<u64>, tag: nat)
    requires
        shards_wf(shards),
        tag < shards.len(),
        shards[tag as int].members.len() + identities.len() <= shards[tag as int].target,
        identities.no_duplicates(),
        forall|i: int| 0 <= i < identities.len() ==> !registered(shards, #[trigger] identities[i]),
    ensures
        publications(shards, identities, tag) is Ok,
        ({
            let after = publications(shards, identities, tag)->Ok_0;
            &&& shards_wf(after)
            &&& after.len() == shards.len()
            &&& after[tag as int].target == shards[tag as int].target
            &&& after[tag as int].members == shards[tag as int].members + identities
            &&& forall|t: int| 0 <= t < shards.len() && t != tag ==> #[trigger] after[t] == shards[t]
            &&& shard_reading(after, tag) == if shards[tag as int].members.len() + identities.len()
                == shards[tag as int].target {
                Ok::<Seq<u64>, AwaitError>(shards[tag as int].members + identities)
            } else {
                Err::<Seq<u64>, AwaitError>(AwaitError::NotReady)
            }
        }),
    decreases identities.len(),
{
    if identities.len() == 0 {
        assert(shards[tag as int].members + identities =~= shards[tag as int].members);
    } else {
        let front = identities.drop_last();
        let last = identities.last();
        assert forall|i: int| 0 <= i < front.len() implies !registered(
            shards,
            #[trigger] front[i],
        ) by {
            assert(front[i] == identities[i]);
        }
        lemma_shard_fills_in_order(shards, front, tag);
        let before = publications(shards, front, tag)->Ok_0;
        assert(!registered(before, last)) by {
            if registered(before, last) {
                let t = choose|t: int|
                    0 <= t < before.len() && #[trigger] before[t].members.contains(last);
                if t == tag {
                    let members = shards[tag as int].members + front;
                    let j = choose|j: int| 0 <= j < members.len() && members[j] == last;
                    if j < shards[tag as int].members.len() {
                        assert(shards[tag as int].members[j] == last);
                        assert(shards[tag as int].members.contains(last));
                    } else {
                        assert(identities[j - shards[tag as int].members.len()] == last);
                    }
                } else {
                    assert(shards[t].members.contains(last));
                }
                assert(!registered(shards, identities[identities.len() - 1]));
            }
        }
        lemma_publication_keeps_invariant(before, tag as int, last);
        let after = publications(shards, identities, tag)->Ok_0;
        assert(after[tag as int].members =~= shards[tag as int].members + identities);
    }
}

/// Why a publication was turned down.
#[derive(Clone, Copy, Debug, PartialEq, Eq, Structural)]
pub enum PublishError {
    /// The directory has no shard with that tag.
    UnknownShard,
    /// The identity is registered already, in this shard or another.
    AlreadyPublished,
    /// The shard has reached its target size.
    ShardFull,
}

/// Why a shard could not be read.
#[derive(Clone, Copy, Debug, PartialEq, Eq, Structural)]
pub enum AwaitError {
    /// The directory has no shard with that tag.
    UnknownShard,
    /// The shard holds fewer identities than its target size: try again later.
    NotReady,
}

/// A registry of shards, each with a fixed target size and an append-only
/// list of member identities.
pub struct Directory {
    targets: Vec<usize>,
    members: Vec<Vec<u64>>,
}

impl View for Directory {
    type V = Seq<ShardView>;

    closed spec fn view(&self) -> Seq<ShardView> {
        Seq::new(
            self.targets@.len(),
            |t: int| ShardView { target: self.targets@[t] as nat, members: self.members@[t]@ },
        )
    }
}

/// The target sizes with which the directory of a fleet is set up: shard
/// `SERVER_SHARD` waits for every server, shard `BROKER_SHARD` for every
/// broker process.
pub fn shard_sizes(servers: usize, brokers: usize) -> (sizes: Vec<usize>)
    ensures
        sizes@ == seq![servers, brokers],
{
    let mut sizes: Vec<usize> = Vec::new();
    sizes.push(servers);
    sizes.push(brokers);
    sizes
}

impl Directory {
    /// Whether the two halves of the representation agree in length.
    pub closed spec fn aligned(&self) -> bool {
        self.targets@.len() == self.members@.len()
    }

    /// The invariant that every constructor establishes and every method
    /// keeps.
    pub open spec fn wf(&self) -> bool {
        self.aligned() && shards_wf(self@)
    }

    /// A directory with one empty shard per entry of `shard_sizes`, shard `t`
    /// having target size `shard_sizes[t]`.
    pub fn new(shard_sizes: Vec<usize>) -> (directory: Directory)
        ensures
            directory.wf(),
            directory@.len() == shard_sizes@.len(),
            forall|t: int|
                0 <= t < shard_sizes@.len() ==> #[trigger] directory@[t] == (ShardView {
                    target: shard_sizes@[t] as nat,
                    members: Seq::<u64>::empty(),
                }),
    {
        let mut members: Vec<Vec<u64>> = Vec::new();
        let mut t: usize = 0;
        while t < shard_sizes.len()
            invariant
                t <= shard_sizes@.len(),
                members@.len() == t,
                forall|s: int| 0 <= s < t ==> (#[trigger] members@[s])@ == Seq::<u64>::empty(),
            decreases shard_sizes@.len() - t,
        {
            members.push(Vec::new());
            t = t + 1;
        }
        Directory { targets: shard_sizes, members }
    }

    /// The directory of a fleet of `servers` servers and `brokers` broker
    /// processes: two empty shards with those target sizes.
    pub fn for_fleet(servers: usize, brokers: usize) -> (directory: Directory)
        ensures
            directory.wf(),
            directory@ == seq![
                ShardView { target: servers as nat, members: Seq::<u64>::empty() },
                ShardView { target: brokers as nat, members: Seq::<u64>::empty() },
            ],
    {
        let directory = Directory::new(shard_sizes(servers, brokers));
        assert(directory@ =~= seq![
            ShardView { target: servers as nat, members: Seq::<u64>::empty() },
            ShardView { target: brokers as nat, members: Seq::<u64>::empty() },
        ]);
        directory
    }

    /// The number of shards.
    pub fn shard_count(&self) -> (count: usize)
        ensures
            count == self@.len(),
    {
        self.targets.len()
    }

    /// The target size of shard `tag`, if there is such a shard.
    pub fn target(&self, tag: usize) -> (target: Option<usize>)
        ensures
            target == if tag < self@.len() {
                Some(self@[tag as int].target as usize)
            } else {
                None
            },
    {
        if tag < self.targets.len() {
            Some(self.targets[tag])
        } else {
            None
        }
    }

    /// The number of identities published to shard `tag` so far, if there is
    /// such a shard.
    pub fn published(&self, tag: usize) -> (count: Option<usize>)
        requires
            self.wf(),
        ensures
            count == if tag < self@.len() {
                Some(self@[tag as int].members.len() as usize)
            } else {
                None
            },
    {
        if tag < self.targets.len() {
            Some(self.members[tag].len())
        } else {
            None
        }
    }

    /// Whether `identity` is registered in some shard.
    pub fn is_registered(&self, identity: u64) -> (found: bool)
        requires
            self.wf(),
        ensures
            found == registered(self@, identity),
    {
        let mut t: usize = 0;
        while t < self.members.len()
            invariant
                self.aligned(),
                t <= self.members@.len(),
                forall|s: int| 0 <= s < t ==> !(#[trigger] self@[s]).members.contains(identity),
            decreases self.members@.len() - t,
        {
            let shard = &self.members[t];
            let mut i: usize = 0;
            while i < shard.len()
                invariant
                    self.aligned(),
                    t < self.members@.len(),
                    shard@ == self@[t as int].members,
                    i <= shard@.len(),
                    forall|j: int| 0 <= j < i ==> shard@[j] != identity,
                decreases shard@.len() - i,
            {
                if shard[i] == identity {
                    assert(self@[t as int].members.contains(identity));
                    return true;
                }
                i = i + 1;
            }
            t = t + 1;
        }
        false
    }

    /// Registers `identity` under shard `tag`. The publication is turned down
    /// when the directory has no such shard, else when the identity is
    /// registered already, else when the shard is full; the directory is then
    /// left as it was. Otherwise the identity is appended to the shard.
    pub fn publish(&mut self, identity: u64, tag: usize) -> (result: Result<(), PublishError>)
        requires
            old(self).wf(),
        ensures
            final(self).wf(),
            match result {
                Ok(()) => publication(old(self)@, identity, tag as nat) == Ok::<
                    Seq<ShardView>,
                    PublishError,
                >(final(self)@),
                Err(error) => publication(old(self)@, identity, tag as nat) == Err::<
                    Seq<ShardView>,
                    PublishError,
                >(error) && final(self)@ == old(self)@,
            },
    {
        if tag >= self.targets.len() {
            return Err(PublishError::UnknownShard);
        }
        if self.is_registered(identity) {
            return Err(PublishError::AlreadyPublished);
        }
        if self.members[tag].len() >= self.targets[tag] {
            return Err(PublishError::ShardFull);
        }
        self.members[tag].push(identity);
        proof {
            assert(self@ =~= with_member(old(self)@, tag as int, identity));
            lemma_publication_keeps_invariant(old(self)@, tag as int, identity);
        }
        Ok(())
    }

    /// Reads shard `tag`: its members, in the order of their publication,
    /// once their number has reached the shard's target size; before that,
    /// the answer is `NotReady`.
    pub fn await_shard(&self, tag: usize) -> (result: Result<Vec<u64>, AwaitError>)
        requires
            self.wf(),
        ensures
            match result {
                Ok(members) => shard_reading(self@, tag as nat) == Ok::<Seq<u64>, AwaitError>(
                    members@,
                ),
                Err(error) => shard_reading(self@, tag as nat) == Err::<Seq<u64>, AwaitError>(
                    error,
                ),
            },
    {
        if tag >= self.targets.len() {
            return Err(AwaitError::UnknownShard);
        }
        if self.members[tag].len() < self.targets[tag] {
            return Err(AwaitError::NotReady);
        }
        let members = self.members[tag].clone();
        assert(members@ =~= self.members@[tag as int]@);
        Ok(members)
    }
}

} // verus!

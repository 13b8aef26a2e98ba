//! The credential-rotating connection pool: admission core.
//!
//! The pool bounds how many connections are out at once, recycles
//! connections returned in good state, and refuses to hand out any
//! connection whose backing credential lease has expired or been
//! superseded. Minting credentials, opening connections and waiting are
//! I/O, done by an unverified shell; every decision the shell acts on is
//! taken here, and each decision function's contract pins the next pool
//! state down exactly.
//!
//! A connection slot is reserved the moment creation is decided
//! ([`PoolCore::try_acquire`] returning [`AcquireDecision::MustCreate`]),
//! so the cap holds even while connections are still being opened: the
//! well-formedness invariant `outstanding + creating + idle <= max` is an
//! ensures of every operation.

use vstd::prelude::*;

verus! {

broadcast use vstd::seq_lib::group_seq_properties;

/// A live connection to the durable store, tagged with the credential
/// lease under which it was created. The tag is how a stale connection is
/// recognised: when the manager has rotated to a fresh lease, connections
/// carrying the old tag are invalidated lazily, on their next validation.
#[derive(Clone, Copy, Debug, PartialEq, Eq, Structural)]
pub struct PooledConn {
    /// Identity of the connection, unique within one pool.
    pub conn_id: u64,
    /// The credential lease the connection was created under.
    pub lease_id: u64,
}

/// Pool observability counters, broadcast last-value-wins: an observer
/// always reads the most recent value and has no claim to intermediate
/// ones. This is the value; the broadcasting cell is the shell's.
#[derive(Clone, Copy, Debug, PartialEq, Eq, Structural)]
pub struct ManagerStats {
    /// Connections created since the pool started.
    pub created: u64,
    /// Connections returned in good state and kept for reuse.
    pub recycled: u64,
    /// Connections dropped: dead, expired or superseded.
    pub discarded: u64,
    /// Expiry of the currently active credential lease, epoch milliseconds.
    pub current_lease_expiry: i64,
}

/// The outcome of a no-wait acquisition attempt.
#[derive(Clone, Copy, Debug, PartialEq, Eq, Structural)]
pub enum AcquireDecision {
    /// A validated idle connection, handed to the caller.
    Granted(PooledConn),
    /// No idle connection, but the cap leaves room: a slot is reserved and
    /// the caller must create the connection (and then register or fail
    /// the creation).
    MustCreate,
    /// The pool is saturated; refused immediately, without waiting.
    Exhausted,
}

/// One step of a waiting acquisition: as [`AcquireDecision`], except that a
/// saturated pool asks the caller to wait, or reports that the configured
/// wait bound has passed.
#[derive(Clone, Copy, Debug, PartialEq, Eq, Structural)]
pub enum AcquireStep {
    /// A validated idle connection, handed to the caller.
    Granted(PooledConn),
    /// A slot was reserved; the caller must create the connection.
    MustCreate,
    /// Saturated: wait until a connection is returned, then step again.
    Wait,
    /// Saturated and past the deadline: the acquisition fails by timeout.
    TimedOut,
}

/// What the background rotation process should do next with the active
/// credential lease.
#[derive(Clone, Copy, Debug, PartialEq, Eq, Structural)]
pub enum RotationAction {
    /// Extend the current lease without changing its material.
    Renew,
    /// Replace the lease with a freshly minted credential.
    Rotate,
    /// Nothing is near expiry; sleep until the next wake point.
    Sleep,
}

/// Mathematical image of the stats counters.
#[verifier::ext_equal]
pub struct StatsView {
    pub created: int,
    pub recycled: int,
    pub discarded: int,
    pub current_lease_expiry: int,
}

/// Mathematical image of the pool.
#[verifier::ext_equal]
pub struct PoolView {
    pub max_connections: int,
    pub outstanding: int,
    pub creating: int,
    pub idle: Seq<PooledConn>,
    pub current_lease_id: u64,
    pub current_lease_expiry: int,
    pub next_conn_id: int,
    pub stats: StatsView,
}

impl View for ManagerStats {
    type V = StatsView;

    open spec fn view(&self) -> StatsView {
        StatsView {
            created: self.created as int,
            recycled: self.recycled as int,
            discarded: self.discarded as int,
            current_lease_expiry: self.current_lease_expiry as int,
        }
    }
}

/// The admission state of the pool: connection counts, the idle set, and
/// the manager's current credential lease.
#[derive(Debug)]
pub struct PoolCore {
    /// Hard cap on connections existing at once.
    pub max_connections: usize,
    /// Connections currently handed out to callers.
    pub outstanding: usize,
    /// Slots reserved for connections still being created.
    pub creating: usize,
    /// Connections available for reuse; front is index 0, reused first.
    pub idle: Vec<PooledConn>,
    /// Identity of the active credential lease.
    pub current_lease_id: u64,
    /// Expiry of the active credential lease, epoch milliseconds.
    pub current_lease_expiry: i64,
    /// Identity given to the next connection created.
    pub next_conn_id: u64,
    /// Observability counters.
    pub stats: ManagerStats,
}

impl View for PoolCore {
    type V = PoolView;

    open spec fn view(&self) -> PoolView {
        PoolView {
            max_connections: self.max_connections as int,
            outstanding: self.outstanding as int,
            creating: self.creating as int,
            idle: self.idle@,
            current_lease_id: self.current_lease_id,
            current_lease_expiry: self.current_lease_expiry as int,
            next_conn_id: self.next_conn_id as int,
            stats: self.stats@,
        }
    }
}

/// A connection may be handed to a caller at `now` only when its tag is the
/// manager's active lease and that lease has not expired. A superseded tag
/// or a lapsed lease both make it invalid.
pub open spec fn conn_valid(c: PooledConn, lease_id: u64, lease_expiry: int, now: int) -> bool {
    c.lease_id == lease_id && lease_expiry > now
}

/// Some idle connection could be handed out at `now`.
pub open spec fn has_valid_idle(v: PoolView, now: int) -> bool {
    exists|i: int|
        0 <= i < v.idle.len() && conn_valid(
            v.idle[i],
            v.current_lease_id,
            v.current_lease_expiry,
            now,
        )
}

/// Well-formedness of the pool: the cap counts everything that exists —
/// handed out, being created, and idle — and the published stats agree
/// with the active lease.
pub open spec fn pool_wf(v: PoolView) -> bool {
    &&& v.outstanding + v.creating + v.idle.len() <= v.max_connections
    &&& v.stats.current_lease_expiry == v.current_lease_expiry
}

/// How many connections at the front of the idle set fail validation at
/// `now`: the scan of an acquisition discards exactly these.
pub open spec fn invalid_prefix_len(
    idle: Seq<PooledConn>,
    lease_id: u64,
    lease_expiry: int,
    now: int,
) -> int
    decreases idle.len(),
{
    if idle.len() == 0 {
        0
    } else if conn_valid(idle[0], lease_id, lease_expiry, now) {
        0
    } else {
        1 + invalid_prefix_len(idle.skip(1), lease_id, lease_expiry, now)
    }
}

/// What `invalid_prefix_len` finds: everything before it is invalid, and
/// either it is the index of the first valid connection or there is none.
pub proof fn lemma_invalid_prefix_len_props(
    idle: Seq<PooledConn>,
    lease_id: u64,
    lease_expiry: int,
    now: int,
)
    ensures
        0 <= invalid_prefix_len(idle, lease_id, lease_expiry, now) <= idle.len(),
        forall|i: int|
            0 <= i < invalid_prefix_len(idle, lease_id, lease_expiry, now) ==> !conn_valid(
                idle[i],
                lease_id,
                lease_expiry,
                now,
            ),
        invalid_prefix_len(idle, lease_id, lease_expiry, now) < idle.len() ==> conn_valid(
            idle[invalid_prefix_len(idle, lease_id, lease_expiry, now)],
            lease_id,
            lease_expiry,
            now,
        ),
    decreases idle.len(),
{
    let k = invalid_prefix_len(idle, lease_id, lease_expiry, now);
    if idle.len() > 0 && !conn_valid(idle[0], lease_id, lease_expiry, now) {
        lemma_invalid_prefix_len_props(idle.skip(1), lease_id, lease_expiry, now);
        assert forall|i: int| 0 <= i < k implies !conn_valid(idle[i], lease_id, lease_expiry, now) by {
            if i > 0 {
                assert(idle.skip(1)[i - 1] == idle[i]);
            }
        }
        if k < idle.len() {
            assert(idle.skip(1)[k - 1] == idle[k]);
        }
    }
}

impl PoolCore {
    /// Well-formedness of the executable pool.
    pub open spec fn wf(&self) -> bool {
        pool_wf(self@)
    }

    /// The effect of one no-wait acquisition attempt at `now`: the pool
    /// afterwards and the decision. Invalid connections at the front of
    /// the idle set are discarded; the first valid one is granted; with
    /// none, a creation slot is reserved when the cap leaves room, and
    /// otherwise the attempt is refused.
    pub open spec fn try_acquire_model(v: PoolView, now: int) -> (PoolView, AcquireDecision) {
        let k = invalid_prefix_len(v.idle, v.current_lease_id, v.current_lease_expiry, now);
        if k < v.idle.len() {
            (
                PoolView {
                    idle: v.idle.skip(k + 1),
                    outstanding: v.outstanding + 1,
                    stats: StatsView { discarded: v.stats.discarded + k, ..v.stats },
                    ..v
                },
                AcquireDecision::Granted(v.idle[k]),
            )
        } else if v.outstanding + v.creating < v.max_connections {
            (
                PoolView {
                    idle: Seq::empty(),
                    creating: v.creating + 1,
                    stats: StatsView { discarded: v.stats.discarded + k, ..v.stats },
                    ..v
                },
                AcquireDecision::MustCreate,
            )
        } else {
            (
                PoolView {
                    idle: Seq::empty(),
                    stats: StatsView { discarded: v.stats.discarded + k, ..v.stats },
                    ..v
                },
                AcquireDecision::Exhausted,
            )
        }
    }

    /// The pool after a connection comes back at `now`: a live connection
    /// whose lease is still the valid active one rejoins the idle set;
    /// anything else is discarded. Either way the caller no longer holds
    /// it.
    pub open spec fn return_model(v: PoolView, c: PooledConn, now: int, alive: bool) -> PoolView {
        if alive && conn_valid(c, v.current_lease_id, v.current_lease_expiry, now) {
            PoolView {
                outstanding: v.outstanding - 1,
                idle: v.idle.push(c),
                stats: StatsView { recycled: v.stats.recycled + 1, ..v.stats },
                ..v
            }
        } else {
            PoolView {
                outstanding: v.outstanding - 1,
                stats: StatsView { discarded: v.stats.discarded + 1, ..v.stats },
                ..v
            }
        }
    }

    /// A fresh pool under an initial credential lease: nothing exists yet.
    pub fn new(max_connections: usize, lease_id: u64, lease_expiry: i64) -> (p: Self)
        ensures
            p@ == (PoolView {
                max_connections: max_connections as int,
                outstanding: 0,
                creating: 0,
                idle: Seq::empty(),
                current_lease_id: lease_id,
                current_lease_expiry: lease_expiry as int,
                next_conn_id: 0,
                stats: StatsView {
                    created: 0,
                    recycled: 0,
                    discarded: 0,
                    current_lease_expiry: lease_expiry as int,
                },
            }),
            p.wf(),
    {
        let p = PoolCore {
            max_connections,
            outstanding: 0,
            creating: 0,
            idle: Vec::new(),
            current_lease_id: lease_id,
            current_lease_expiry: lease_expiry,
            next_conn_id: 0,
            stats: ManagerStats {
                created: 0,
                recycled: 0,
                discarded: 0,
                current_lease_expiry: lease_expiry,
            },
        };
        proof {
            assert(p@ =~= (PoolView {
                max_connections: max_connections as int,
                outstanding: 0,
                creating: 0,
                idle: Seq::empty(),
                current_lease_id: lease_id,
                current_lease_expiry: lease_expiry as int,
                next_conn_id: 0,
                stats: StatsView {
                    created: 0,
                    recycled: 0,
                    discarded: 0,
                    current_lease_expiry: lease_expiry as int,
                },
            }));
        }
        p
    }

    /// Attempt to acquire without waiting. Never suspends: the result is
    /// immediate, and a saturated pool answers
    /// [`AcquireDecision::Exhausted`] at once.
    pub fn try_acquire(&mut self, now: i64) -> (d: AcquireDecision)
        requires
            old(self).wf(),
            old(self)@.stats.discarded + old(self)@.idle.len() <= u64::MAX,
        ensures
            final(self)@ == Self::try_acquire_model(old(self)@, now as int).0,
            d == Self::try_acquire_model(old(self)@, now as int).1,
            final(self).wf(),
            (d matches AcquireDecision::Granted(c) ==> conn_valid(
                c,
                old(self)@.current_lease_id,
                old(self)@.current_lease_expiry,
                now as int,
            )),
            (d is Exhausted) <==> (!has_valid_idle(old(self)@, now as int) && old(
                self,
            )@.outstanding + old(self)@.creating == old(self)@.max_connections),
    {
        let ghost v0 = self@;
        let ghost mut j: int = 0;
        proof {
            lemma_invalid_prefix_len_props(
                v0.idle,
                v0.current_lease_id,
                v0.current_lease_expiry,
                now as int,
            );
            assert(v0.idle.skip(0) =~= v0.idle);
        }
        while self.idle.len() > 0
            invariant
                v0 == old(self)@,
                pool_wf(v0),
                0 <= j <= v0.idle.len(),
                v0.idle.len() <= v0.max_connections,
                self@.idle =~= v0.idle.skip(j),
                invalid_prefix_len(
                    v0.idle,
                    v0.current_lease_id,
                    v0.current_lease_expiry,
                    now as int,
                ) == j + invalid_prefix_len(
                    self@.idle,
                    v0.current_lease_id,
                    v0.current_lease_expiry,
                    now as int,
                ),
                j <= invalid_prefix_len(
                    v0.idle,
                    v0.current_lease_id,
                    v0.current_lease_expiry,
                    now as int,
                ),
                self@.stats.discarded == v0.stats.discarded + j,
                v0.stats.discarded + v0.idle.len() <= u64::MAX,
                self.max_connections == v0.max_connections,
                self.outstanding == v0.outstanding,
                self.creating == v0.creating,
                self.current_lease_id == v0.current_lease_id,
                self.current_lease_expiry as int == v0.current_lease_expiry,
                self.next_conn_id as int == v0.next_conn_id,
                self.stats.created == v0.stats.created,
                self.stats.recycled == v0.stats.recycled,
                self.stats.current_lease_expiry as int == v0.stats.current_lease_expiry,
                v0.outstanding + v0.creating + v0.idle.len() <= v0.max_connections,
            decreases self.idle.len(),
        {
            let ghost rest = self@.idle;
            let c = self.idle[0];
            proof {
                assert(rest[0] == v0.idle[j]);
            }
            if c.lease_id == self.current_lease_id && self.current_lease_expiry > now {
                self.idle.remove(0);
                self.outstanding = self.outstanding + 1;
                proof {
                    assert(invalid_prefix_len(
                        rest,
                        v0.current_lease_id,
                        v0.current_lease_expiry,
                        now as int,
                    ) == 0);
                    assert(self@.idle =~= v0.idle.skip(j + 1));
                    assert(self@ =~= Self::try_acquire_model(v0, now as int).0);
                }
                return AcquireDecision::Granted(c);
            }
            self.idle.remove(0);
            self.stats.discarded = self.stats.discarded + 1;
            proof {
                assert(!conn_valid(rest[0], v0.current_lease_id, v0.current_lease_expiry, now as int));
                lemma_invalid_prefix_len_props(
                    rest.skip(1),
                    v0.current_lease_id,
                    v0.current_lease_expiry,
                    now as int,
                );
                assert(rest.skip(1) =~= v0.idle.skip(j + 1));
                j = j + 1;
            }
        }
        proof {
            assert(self@.idle.len() == 0);
            assert(invalid_prefix_len(
                self@.idle,
                v0.current_lease_id,
                v0.current_lease_expiry,
                now as int,
            ) == 0);
            assert(j == v0.idle.len());
            lemma_invalid_prefix_len_props(
                v0.idle,
                v0.current_lease_id,
                v0.current_lease_expiry,
                now as int,
            );
        }
        if self.outstanding + self.creating < self.max_connections {
            self.creating = self.creating + 1;
            proof {
                assert(self@ =~= Self::try_acquire_model(v0, now as int).0);
            }
            AcquireDecision::MustCreate
        } else {
            proof {
                assert(self@ =~= Self::try_acquire_model(v0, now as int).0);
            }
            AcquireDecision::Exhausted
        }
    }

    /// One step of a waiting acquisition with deadline. Identical to
    /// [`Self::try_acquire`], except that saturation asks the caller to
    /// wait — or reports timeout once `now` has reached the deadline. The
    /// step itself never suspends; the waiting is the caller's.
    pub fn acquire_step(&mut self, now: i64, deadline: i64) -> (s: AcquireStep)
        requires
            old(self).wf(),
            old(self)@.stats.discarded + old(self)@.idle.len() <= u64::MAX,
        ensures
            final(self)@ == Self::try_acquire_model(old(self)@, now as int).0,
            s == step_of(
                Self::try_acquire_model(old(self)@, now as int).1,
                now as int,
                deadline as int,
            ),
            final(self).wf(),
    {
        let d = self.try_acquire(now);
        match d {
            AcquireDecision::Granted(c) => AcquireStep::Granted(c),
            AcquireDecision::MustCreate => AcquireStep::MustCreate,
            AcquireDecision::Exhausted => {
                if now >= deadline {
                    AcquireStep::TimedOut
                } else {
                    AcquireStep::Wait
                }
            },
        }
    }

    /// Materialise a creation the pool decided on: the new connection is
    /// tagged with the active lease and handed out. The active lease must
    /// still be valid — when it lapsed while creating, the caller rotates
    /// first.
    pub fn register_created(&mut self, now: i64) -> (c: PooledConn)
        requires
            old(self).wf(),
            old(self)@.creating >= 1,
            old(self)@.current_lease_expiry > now,
            old(self)@.stats.created < u64::MAX,
            old(self)@.next_conn_id < u64::MAX,
        ensures
            c == (PooledConn {
                conn_id: old(self).next_conn_id,
                lease_id: old(self).current_lease_id,
            }),
            conn_valid(c, old(self)@.current_lease_id, old(self)@.current_lease_expiry, now as int),
            final(self)@ == (PoolView {
                outstanding: old(self)@.outstanding + 1,
                creating: old(self)@.creating - 1,
                next_conn_id: old(self)@.next_conn_id + 1,
                stats: StatsView { created: old(self)@.stats.created + 1, ..old(self)@.stats },
                ..old(self)@
            }),
            final(self).wf(),
    {
        let c = PooledConn { conn_id: self.next_conn_id, lease_id: self.current_lease_id };
        self.next_conn_id = self.next_conn_id + 1;
        self.creating = self.creating - 1;
        self.outstanding = self.outstanding + 1;
        self.stats.created = self.stats.created + 1;
        proof {
            assert(self@ =~= (PoolView {
                outstanding: old(self)@.outstanding + 1,
                creating: old(self)@.creating - 1,
                next_conn_id: old(self)@.next_conn_id + 1,
                stats: StatsView { created: old(self)@.stats.created + 1, ..old(self)@.stats },
                ..old(self)@
            }));
        }
        c
    }

    /// Release a creation slot after the creation failed (the credential
    /// could not be minted, or the store refused the connection). The
    /// failure itself is the caller's backend error; the pool only takes
    /// its bookkeeping back.
    pub fn fail_create(&mut self)
        requires
            old(self).wf(),
            old(self)@.creating >= 1,
        ensures
            final(self)@ == (PoolView { creating: old(self)@.creating - 1, ..old(self)@ }),
            final(self).wf(),
    {
        self.creating = self.creating - 1;
        proof {
            assert(self@ =~= (PoolView { creating: old(self)@.creating - 1, ..old(self)@ }));
        }
    }

    /// Take back a connection a caller no longer uses. A live connection
    /// whose tagged lease is still the valid active one rejoins the idle
    /// set; a dead, expired or superseded one is discarded — it will never
    /// be handed to a caller again — and its replacement is created
    /// lazily, on next demand.
    pub fn return_conn(&mut self, conn: PooledConn, now: i64, alive: bool)
        requires
            old(self).wf(),
            old(self)@.outstanding >= 1,
            old(self)@.stats.recycled < u64::MAX,
            old(self)@.stats.discarded < u64::MAX,
        ensures
            final(self)@ == Self::return_model(old(self)@, conn, now as int, alive),
            !(alive && conn_valid(
                conn,
                old(self)@.current_lease_id,
                old(self)@.current_lease_expiry,
                now as int,
            )) ==> final(self)@.idle == old(self)@.idle,
            final(self).wf(),
    {
        self.outstanding = self.outstanding - 1;
        if alive && conn.lease_id == self.current_lease_id && self.current_lease_expiry > now {
            self.idle.push(conn);
            self.stats.recycled = self.stats.recycled + 1;
            proof {
                assert(self@ =~= Self::return_model(old(self)@, conn, now as int, alive));
            }
        } else {
            self.stats.discarded = self.stats.discarded + 1;
            proof {
                assert(self@ =~= Self::return_model(old(self)@, conn, now as int, alive));
            }
        }
    }

    /// Install a freshly minted credential lease. Every connection tagged
    /// with the old lease — idle or checked out — is superseded from this
    /// moment, but none is closed here: each is invalidated lazily at its
    /// next validation.
    pub fn rotate_lease(&mut self, new_expiry: i64)
        requires
            old(self).wf(),
            old(self)@.current_lease_id < u64::MAX,
        ensures
            final(self)@ == (PoolView {
                current_lease_id: (old(self)@.current_lease_id + 1) as u64,
                current_lease_expiry: new_expiry as int,
                stats: StatsView {
                    current_lease_expiry: new_expiry as int,
                    ..old(self)@.stats
                },
                ..old(self)@
            }),
            final(self)@.idle == old(self)@.idle,
            final(self)@.outstanding == old(self)@.outstanding,
            final(self).wf(),
    {
        self.current_lease_id = self.current_lease_id + 1;
        self.current_lease_expiry = new_expiry;
        self.stats.current_lease_expiry = new_expiry;
        proof {
            assert(self@ =~= (PoolView {
                current_lease_id: (old(self)@.current_lease_id + 1) as u64,
                current_lease_expiry: new_expiry as int,
                stats: StatsView {
                    current_lease_expiry: new_expiry as int,
                    ..old(self)@.stats
                },
                ..old(self)@
            }));
        }
    }

    /// Extend the active lease without changing its material: connections
    /// tagged with it stay valid for longer. The expiry never moves
    /// backwards.
    pub fn renew_lease(&mut self, new_expiry: i64)
        requires
            old(self).wf(),
            new_expiry as int >= old(self)@.current_lease_expiry,
        ensures
            final(self)@ == (PoolView {
                current_lease_expiry: new_expiry as int,
                stats: StatsView {
                    current_lease_expiry: new_expiry as int,
                    ..old(self)@.stats
                },
                ..old(self)@
            }),
            final(self)@.current_lease_id == old(self)@.current_lease_id,
            final(self).wf(),
    {
        self.current_lease_expiry = new_expiry;
        self.stats.current_lease_expiry = new_expiry;
        proof {
            assert(self@ =~= (PoolView {
                current_lease_expiry: new_expiry as int,
                stats: StatsView {
                    current_lease_expiry: new_expiry as int,
                    ..old(self)@.stats
                },
                ..old(self)@
            }));
        }
    }

    /// A snapshot of the observability counters.
    pub fn stats(&self) -> (s: ManagerStats)
        ensures
            s == self.stats,
    {
        self.stats
    }
}

/// How a no-wait decision reads for a waiting acquisition with a deadline.
pub open spec fn step_of(d: AcquireDecision, now: int, deadline: int) -> AcquireStep {
    match d {
        AcquireDecision::Granted(c) => AcquireStep::Granted(c),
        AcquireDecision::MustCreate => AcquireStep::MustCreate,
        AcquireDecision::Exhausted => if now >= deadline {
            AcquireStep::TimedOut
        } else {
            AcquireStep::Wait
        },
    }
}

/// Milliseconds left on a lease, never negative.
pub open spec fn remaining_millis(lease_expiry: int, now: int) -> int {
    if lease_expiry > now {
        lease_expiry - now
    } else {
        0
    }
}

/// The rotation policy: rotate when the lease is within `rotate_before`
/// milliseconds of its end (or already past it), renew — when renewal is
/// available — within `renew_before`, and otherwise sleep. The thresholds
/// are configuration, not constants.
pub open spec fn rotation_model(
    renewable: bool,
    lease_expiry: int,
    now: int,
    renew_before: int,
    rotate_before: int,
) -> RotationAction {
    if remaining_millis(lease_expiry, now) <= rotate_before {
        RotationAction::Rotate
    } else if renewable && remaining_millis(lease_expiry, now) <= renew_before {
        RotationAction::Renew
    } else {
        RotationAction::Sleep
    }
}

/// Decide the next move of the background rotation process. `renewable`
/// says whether the secret authority can extend the current lease at all
/// (a renewable token) or only mint fresh material.
pub fn rotation_action(
    renewable: bool,
    lease_expiry: i64,
    now: i64,
    renew_before: i64,
    rotate_before: i64,
) -> (a: RotationAction)
    requires
        now >= 0,
    ensures
        a == rotation_model(
            renewable,
            lease_expiry as int,
            now as int,
            renew_before as int,
            rotate_before as int,
        ),
{
    let remaining: i64 = if lease_expiry > now {
        lease_expiry - now
    } else {
        0
    };
    if remaining <= rotate_before {
        RotationAction::Rotate
    } else if renewable && remaining <= renew_before {
        RotationAction::Renew
    } else {
        RotationAction::Sleep
    }
}

/// The cap law: an acquisition never pushes the pool past its bound — the
/// invariant `outstanding + creating + idle <= max` survives, and a grant
/// or a creation reservation happens only when there was room.
pub proof fn lemma_acquire_respects_cap(v: PoolView, now: int)
    requires
        pool_wf(v),
    ensures
        pool_wf(PoolCore::try_acquire_model(v, now).0),
        PoolCore::try_acquire_model(v, now).0.outstanding + PoolCore::try_acquire_model(
            v,
            now,
        ).0.creating <= v.max_connections,
        !(PoolCore::try_acquire_model(v, now).1 is Exhausted) ==> v.outstanding + v.creating
            < v.max_connections,
{
    lemma_invalid_prefix_len_props(v.idle, v.current_lease_id, v.current_lease_expiry, now);
}

/// The freshness law: a granted connection is always backed by the
/// currently valid credential lease — never an expired or superseded one.
pub proof fn lemma_granted_conn_valid(v: PoolView, now: int)
    requires
        pool_wf(v),
    ensures
        (PoolCore::try_acquire_model(v, now).1 matches AcquireDecision::Granted(c) ==> conn_valid(
            c,
            v.current_lease_id,
            v.current_lease_expiry,
            now,
        )),
{
    lemma_invalid_prefix_len_props(v.idle, v.current_lease_id, v.current_lease_expiry, now);
}

/// The no-wait law: the no-wait attempt is refused exactly when the pool
/// is saturated and holds no valid idle connection; under the
/// well-formedness invariant that is exactly saturation, since a saturated
/// pool has nothing idle.
pub proof fn lemma_exhausted_iff_saturated(v: PoolView, now: int)
    requires
        pool_wf(v),
    ensures
        (PoolCore::try_acquire_model(v, now).1 is Exhausted) <==> (!has_valid_idle(v, now)
            && v.outstanding + v.creating == v.max_connections),
        (PoolCore::try_acquire_model(v, now).1 is Exhausted) ==> v.idle.len() == 0,
{
    lemma_invalid_prefix_len_props(v.idle, v.current_lease_id, v.current_lease_expiry, now);
    let k = invalid_prefix_len(v.idle, v.current_lease_id, v.current_lease_expiry, now);
    if k < v.idle.len() {
        assert(has_valid_idle(v, now));
    }
    if v.outstanding + v.creating == v.max_connections && v.idle.len() > 0 {
        assert(v.outstanding + v.creating + v.idle.len() > v.max_connections);
    }
}

/// The lazy-invalidation law: a returned connection that is dead, or whose
/// tagged lease has expired or been superseded, never rejoins the idle set
/// — so it can never be handed out again — while a live, currently backed
/// one does.
pub proof fn lemma_return_validates(v: PoolView, c: PooledConn, now: int, alive: bool)
    requires
        pool_wf(v),
        v.outstanding >= 1,
    ensures
        pool_wf(PoolCore::return_model(v, c, now, alive)),
        alive && conn_valid(c, v.current_lease_id, v.current_lease_expiry, now)
            ==> PoolCore::return_model(v, c, now, alive).idle == v.idle.push(c),
        !(alive && conn_valid(c, v.current_lease_id, v.current_lease_expiry, now))
            ==> PoolCore::return_model(v, c, now, alive).idle == v.idle,
{
}

} // verus!

use vstd::prelude::*;
use crate::classify::{ClassifyRules, Spawn};
use crate::identity::{bytes_eq, normalize, spec_normalize};
use crate::record::Record;
use crate::task::{task_step, FetchOutcome, TaskEffect};
use crate::visited::VisitedSet;

verus! {

broadcast use vstd::seq_lib::seq_to_set_is_finite, vstd::set::group_set_axioms;

/// A recorded fetch capability: what the transport answers for each identity
/// — a body on success, nothing on a failed fetch. Identities not listed
/// fail. This is the driver's collaborator in its sequential form.
pub struct FetchTable {
    pub entries: Vec<(Vec<u8>, Option<Vec<u8>>)>,
}

/// The answer recorded for identity `k`: the body of the first entry with
/// key `k`, or `None` when that entry records a failure or no entry exists.
pub open spec fn spec_fetch(entries: Seq<(Vec<u8>, Option<Vec<u8>>)>, k: Seq<u8>) -> Option<Seq<u8>>
    decreases entries.len(),
{
    if entries.len() == 0 {
        None
    } else if entries[0].0@ == k {
        match entries[0].1 {
            Some(b) => Some(b@),
            None => None,
        }
    } else {
        spec_fetch(entries.skip(1), k)
    }
}

/// All identities the table holds an entry for.
pub open spec fn table_keys(entries: Seq<(Vec<u8>, Option<Vec<u8>>)>) -> Set<Seq<u8>> {
    entries.map_values(|e: (Vec<u8>, Option<Vec<u8>>)| e.0@).to_set()
}

/// The set of identity keys the emitted records carry.
pub open spec fn record_keys(rs: Seq<Record>) -> Set<Seq<u8>> {
    rs.map_values(|r: Record| r@.key).to_set()
}

/// Some pending task in `q` has a non-empty href whose identity is `id`.
spec fn in_queue(q: Seq<Spawn>, origin: Seq<u8>, id: Seq<u8>) -> bool {
    exists|j: int|
        0 <= j < q.len() && (#[trigger] q[j]).href@.len() > 0
            && spec_normalize(q[j].href@, origin) == id
}

proof fn lemma_fetch_in_keys(entries: Seq<(Vec<u8>, Option<Vec<u8>>)>, k: Seq<u8>)
    requires
        spec_fetch(entries, k) is Some,
    ensures
        table_keys(entries).contains(k),
    decreases entries.len(),
{
    let m = entries.map_values(|e: (Vec<u8>, Option<Vec<u8>>)| e.0@);
    if entries[0].0@ == k {
        assert(m[0] == k);
        assert(m.contains(k));
    } else {
        lemma_fetch_in_keys(entries.skip(1), k);
        let m1 = entries.skip(1).map_values(|e: (Vec<u8>, Option<Vec<u8>>)| e.0@);
        assert(m1.contains(k));
        let i = choose|i: int| 0 <= i < m1.len() && m1[i] == k;
        assert(m[i + 1] == k);
        assert(m.contains(k));
    }
}

proof fn lemma_to_set_push<A>(m: Seq<A>, x: A)
    ensures
        m.push(x).to_set() =~= m.to_set().insert(x),
{
    assert(m.push(x)[m.len() as int] == x);
    assert forall|y: A| m.push(x).contains(y) implies m.to_set().insert(x).contains(y) by {
        let i = choose|i: int| 0 <= i < m.push(x).len() && m.push(x)[i] == y;
        if i < m.len() {
            assert(m[i] == y);
        }
    };
    assert forall|y: A| m.to_set().insert(x).contains(y) implies m.push(x).contains(y) by {
        if y == x {
            assert(m.push(x)[m.len() as int] == y);
        } else {
            let i = choose|i: int| 0 <= i < m.len() && m[i] == y;
            assert(m.push(x)[i] == y);
        }
    };
}

impl FetchTable {
    /// Look an identity up in the recorded answers.
    pub fn fetch(&self, identity: &Vec<u8>) -> (r: FetchOutcome)
        ensures
            match r {
                FetchOutcome::Success { body } => spec_fetch(self.entries@, identity@) == Some(body@),
                FetchOutcome::Failure => spec_fetch(self.entries@, identity@) is None,
            },
    {
        let mut i: usize = 0;
        proof {
            assert(self.entries@.skip(0) =~= self.entries@);
        }
        while i < self.entries.len()
            invariant
                i <= self.entries@.len(),
                spec_fetch(self.entries@, identity@)
                    == spec_fetch(self.entries@.skip(i as int), identity@),
            decreases self.entries@.len() - i,
        {
            proof {
                assert(self.entries@.skip(i as int)[0] == self.entries@[i as int]);
                assert(self.entries@.skip(i as int).skip(1) =~= self.entries@.skip(i + 1));
            }
            if bytes_eq(&self.entries[i].0, identity) {
                match &self.entries[i].1 {
                    Some(b) => {
                        return FetchOutcome::Success { body: b.clone() };
                    },
                    None => {
                        return FetchOutcome::Failure;
                    },
                }
            }
            i += 1;
        }
        proof {
            assert(self.entries@.skip(self.entries@.len() as int)
                =~= Seq::<(Vec<u8>, Option<Vec<u8>>)>::empty());
        }
        FetchOutcome::Failure
    }
}

/// The crawl driver, in its sequential form: seed the worklist, run every
/// task — admission through the visited set, fetch against the table, then
/// the task's decision step — until no task remains pending, and return the
/// records emitted.
///
/// The driver settles for every finite fetch table, even though tasks keep
/// spawning children while it drains the worklist: each admitted success
/// claims a table key for good, so the loop's measure — unclaimed table keys,
/// then pending tasks — strictly falls. The records' keys are exactly the
/// identities left standing in the visited set: each identity yields at most
/// one record, however many spawns converge on it; every record's payload is
/// what the table answered for its key; and every seed whose identity the
/// table answers successfully is recorded.
pub fn drive(table: &FetchTable, rules: &ClassifyRules, origin: &Vec<u8>, seeds: Vec<Spawn>) -> (records: Vec<Record>)
    ensures
        forall|i: int, j: int| 0 <= i < j < records@.len()
            ==> (#[trigger] records@[i])@.key != (#[trigger] records@[j])@.key,
        forall|i: int| 0 <= i < records@.len()
            ==> spec_fetch(table.entries@, (#[trigger] records@[i])@.key) == Some(records@[i]@.payload),
        forall|i: int|
            (0 <= i < seeds@.len() && (#[trigger] seeds@[i]).href@.len() > 0
                && spec_fetch(table.entries@, spec_normalize(seeds@[i].href@, origin@)) is Some)
                ==> record_keys(records@).contains(spec_normalize(seeds@[i].href@, origin@)),
{
    let ghost uni = table_keys(table.entries@);
    let ghost seeds0 = seeds@;
    let mut visited = VisitedSet::new();
    let mut queue: Vec<Spawn> = seeds;
    let mut records: Vec<Record> = Vec::new();
    proof {
        assert(record_keys(records@) =~= Set::<Seq<u8>>::empty());
        assert(visited.members() =~= record_keys(records@));
        assert forall|i: int|
            (0 <= i < seeds0.len() && (#[trigger] seeds0[i]).href@.len() > 0)
            implies in_queue(queue@, origin@, spec_normalize(seeds0[i].href@, origin@)) by {
            assert(queue@[i].href@.len() > 0);
        };
    }
    while queue.len() > 0
        invariant
            uni == table_keys(table.entries@),
            uni.finite(),
            visited.members() == record_keys(records@),
            forall|i: int, j: int| 0 <= i < j < records@.len()
                ==> (#[trigger] records@[i])@.key != (#[trigger] records@[j])@.key,
            forall|i: int| 0 <= i < records@.len()
                ==> spec_fetch(table.entries@, (#[trigger] records@[i])@.key)
                    == Some(records@[i]@.payload),
            forall|i: int|
                (0 <= i < seeds0.len() && (#[trigger] seeds0[i]).href@.len() > 0
                    && spec_fetch(table.entries@, spec_normalize(seeds0[i].href@, origin@)) is Some)
                    ==> (visited.members().contains(spec_normalize(seeds0[i].href@, origin@))
                        || in_queue(queue@, origin@, spec_normalize(seeds0[i].href@, origin@))),
        decreases
            uni.difference(visited.members()).len(),
            queue.len(),
    {
        let ghost vis0 = visited.members();
        let ghost q0 = queue@;
        let spawn = queue.pop().unwrap();
        let ghost qd = queue@;
        proof {
            assert(qd =~= q0.drop_last());
        }
        if spawn.href.len() > 0 {
            let id = normalize(&spawn.href, origin);
            let admitted = visited.try_acquire(id.clone());
            if admitted {
                let outcome = table.fetch(&id);
                let eff = task_step(&mut visited, rules, spawn.child_type, &id, outcome);
                match eff {
                    TaskEffect::Emit { record, mut spawns } => {
                        proof {
                            // A success claims a fresh table key: the pool of
                            // unclaimed keys shrinks.
                            lemma_fetch_in_keys(table.entries@, id@);
                            assert(uni.difference(vis0.insert(id@))
                                =~= uni.difference(vis0).remove(id@));
                            assert(uni.difference(vis0).contains(id@));
                            assert(uni.difference(vis0).len() >= 1);
                        }
                        let ghost recs0 = records@;
                        let ghost keys0 = records@.map_values(|r: Record| r@.key);
                        records.push(record);
                        proof {
                            assert(records@.map_values(|r: Record| r@.key)
                                =~= keys0.push(id@));
                            lemma_to_set_push(keys0, id@);
                            // Every earlier key is a member of the visited
                            // set, which the fresh claim was not.
                            assert forall|i: int| 0 <= i < recs0.len()
                                implies (#[trigger] recs0[i])@.key != id@ by {
                                assert(keys0[i] == recs0[i]@.key);
                                assert(keys0.contains(keys0[i]));
                                assert(record_keys(recs0).contains(recs0[i]@.key));
                            };
                        }
                        queue.append(&mut spawns);
                        proof {
                            assert forall|sid: Seq<u8>|
                                in_queue(q0, origin@, sid) && sid != id@
                                implies in_queue(queue@, origin@, sid) by {
                                let j = choose|j: int|
                                    0 <= j < q0.len() && (#[trigger] q0[j]).href@.len() > 0
                                        && spec_normalize(q0[j].href@, origin@) == sid;
                                assert(j < q0.len() - 1);
                                assert(queue@[j] == q0[j]);
                            };
                        }
                    },
                    TaskEffect::Released => {
                        proof {
                            // The failed claim was given back: the visited
                            // set is as it stood, and the failed identity
                            // cannot be a seed the table answers.
                            assert(vis0.insert(id@).remove(id@) =~= vis0);
                            assert forall|sid: Seq<u8>|
                                in_queue(q0, origin@, sid) && sid != id@
                                implies in_queue(queue@, origin@, sid) by {
                                let j = choose|j: int|
                                    0 <= j < q0.len() && (#[trigger] q0[j]).href@.len() > 0
                                        && spec_normalize(q0[j].href@, origin@) == sid;
                                assert(j < q0.len() - 1);
                                assert(queue@[j] == q0[j]);
                            };
                        }
                    },
                }
            } else {
                proof {
                    assert(vis0.insert(id@) =~= vis0);
                    assert forall|sid: Seq<u8>|
                        in_queue(q0, origin@, sid) && sid != id@
                        implies in_queue(queue@, origin@, sid) by {
                        let j = choose|j: int|
                            0 <= j < q0.len() && (#[trigger] q0[j]).href@.len() > 0
                                && spec_normalize(q0[j].href@, origin@) == sid;
                        assert(j < q0.len() - 1);
                        assert(queue@[j] == q0[j]);
                    };
                }
            }
        } else {
            proof {
                assert forall|sid: Seq<u8>| in_queue(q0, origin@, sid)
                    implies in_queue(queue@, origin@, sid) by {
                    let j = choose|j: int|
                        0 <= j < q0.len() && (#[trigger] q0[j]).href@.len() > 0
                            && spec_normalize(q0[j].href@, origin@) == sid;
                    assert(j < q0.len() - 1);
                    assert(queue@[j] == q0[j]);
                };
            }
        }
    }
    records
}

} // verus!

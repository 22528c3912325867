use vstd::prelude::*;

use crate::multi_set::MultiSetModifyMessage;
use crate::queryable_streaming_multi_map::grouped_multiplicity;

verus! {

// ---------------------------------------------------------------------------
// Laws of the counting discipline, stated for one fixed pair: how its count
// moves under a sequence of mutations, and which notifications those
// mutations emit. The ensures of `insert` and `remove` on every relation
// state exactly these transitions for the touched pair; the lemmas here state
// what follows for whole mutation sequences.
// ---------------------------------------------------------------------------

/// The count of one pair after one mutation: `true` is an insert, `false` a
/// remove. An insert always raises the count; a remove lowers it when the
/// pair is held and is ignored otherwise.
pub open spec fn count_after_op(c: nat, is_insert: bool) -> nat {
    if is_insert {
        c + 1
    } else if c > 0 {
        (c - 1) as nat
    } else {
        0
    }
}

/// The count of one pair after a sequence of mutations, applied in order.
pub open spec fn count_after_ops(c: nat, ops: Seq<bool>) -> nat
    decreases ops.len(),
{
    if ops.len() == 0 {
        c
    } else {
        count_after_ops(count_after_op(c, ops.first()), ops.drop_first())
    }
}

/// Whether a mutation of one pair emits a notification: exactly on the two
/// transitions between count zero and count one, never on an interior count
/// change.
pub open spec fn op_emits(c: nat, is_insert: bool) -> bool {
    if is_insert {
        c == 0
    } else {
        c == 1
    }
}

/// The notifications emitted for one pair along a sequence of mutations, in
/// order: `true` is a presence, `false` an absence.
pub open spec fn emitted_transitions(c: nat, ops: Seq<bool>) -> Seq<bool>
    decreases ops.len(),
{
    if ops.len() == 0 {
        Seq::empty()
    } else {
        (if op_emits(c, ops.first()) {
            seq![ops.first()]
        } else {
            Seq::empty()
        }) + emitted_transitions(count_after_op(c, ops.first()), ops.drop_first())
    }
}

/// Inserts minus removes in a sequence of mutations of one pair.
pub open spec fn net_insertions(ops: Seq<bool>) -> int
    decreases ops.len(),
{
    if ops.len() == 0 {
        0
    } else {
        (if ops.first() {
            1int
        } else {
            -1int
        }) + net_insertions(ops.drop_first())
    }
}

/// In every prefix of the mutation sequence, removes never outnumber the
/// count available: no remove ever falls on an absent pair.
pub open spec fn never_overdrawn(c: nat, ops: Seq<bool>) -> bool {
    forall|i: int| 0 <= i <= ops.len() ==> c + net_insertions(#[trigger] ops.take(i)) >= 0
}

/// For any sequence of inserts and removes of one pair in which no remove
/// falls on an absent pair, the final count is the initial count plus inserts
/// minus removes — so the pair is present exactly when that net count is
/// positive. (Without the proviso a surplus remove is ignored and the count
/// ends higher than the net: inserting, removing twice and inserting again
/// leaves a count of one where the net is zero.)
pub proof fn lemma_count_is_net_insertions(c: nat, ops: Seq<bool>)
    requires
        never_overdrawn(c, ops),
    ensures
        count_after_ops(c, ops) == c + net_insertions(ops),
    decreases ops.len(),
{
    if ops.len() == 0 {
    } else {
        let c1 = count_after_op(c, ops.first());
        assert(ops.take(1) =~= seq![ops.first()]);
        assert(ops.take(1).drop_first() =~= Seq::<bool>::empty());
        assert(net_insertions(ops.take(1).drop_first()) == 0);
        assert(net_insertions(ops.take(1)) == if ops.first() {
            1int
        } else {
            -1int
        });
        assert(c + net_insertions(ops.take(1)) >= 0);
        assert(c1 == c + net_insertions(ops.take(1)));
        assert forall|i: int|
            0 <= i <= ops.drop_first().len() implies c1 + net_insertions(
            #[trigger] ops.drop_first().take(i),
        ) >= 0 by {
            assert(ops.take(i + 1).first() == ops.first());
            assert(ops.take(i + 1).drop_first() =~= ops.drop_first().take(i));
            assert(net_insertions(ops.take(i + 1)) == (if ops.first() {
                1int
            } else {
                -1int
            }) + net_insertions(ops.drop_first().take(i)));
            assert(c + net_insertions(ops.take(i + 1)) >= 0);
        }
        lemma_count_is_net_insertions(c1, ops.drop_first());
        assert(ops.take(ops.len() as int) =~= ops);
        assert(ops.take(ops.len() as int).drop_first() =~= ops.drop_first().take(
            ops.drop_first().len() as int,
        ));
        assert(ops.drop_first().take(ops.drop_first().len() as int) =~= ops.drop_first());
        assert(net_insertions(ops) == (if ops.first() {
            1int
        } else {
            -1int
        }) + net_insertions(ops.drop_first()));
    }
}

/// A sequence of notifications strictly alternates, starting with `expected`.
pub open spec fn alternates_from(s: Seq<bool>, expected: bool) -> bool
    decreases s.len(),
{
    if s.len() == 0 {
        true
    } else {
        s.first() == expected && alternates_from(s.drop_first(), !expected)
    }
}

/// For one pair, the notifications strictly alternate between presence and
/// absence, starting with a presence when the pair starts absent: at most one
/// presence is ever outstanding, and interior count changes emit nothing —
/// however the counts move in between.
pub proof fn lemma_emissions_alternate(c: nat, ops: Seq<bool>)
    ensures
        alternates_from(emitted_transitions(c, ops), c == 0),
    decreases ops.len(),
{
    if ops.len() > 0 {
        let c1 = count_after_op(c, ops.first());
        let rest = emitted_transitions(c1, ops.drop_first());
        lemma_emissions_alternate(c1, ops.drop_first());
        if op_emits(c, ops.first()) {
            let whole = seq![ops.first()] + rest;
            assert(whole.first() == ops.first());
            assert(whole.drop_first() =~= rest);
            assert(ops.first() == (c == 0));
            assert((c1 == 0) == !(c == 0));
        } else {
            assert(Seq::<bool>::empty() + rest =~= rest);
            assert((c1 == 0) == (c == 0));
        }
    }
}

/// How many notifications of one kind a notification sequence holds.
pub open spec fn count_of_kind(s: Seq<bool>, kind: bool) -> nat
    decreases s.len(),
{
    if s.len() == 0 {
        0
    } else {
        (if s.first() == kind {
            1nat
        } else {
            0
        }) + count_of_kind(s.drop_first(), kind)
    }
}

/// For one pair, presences and absences emitted balance out up to the change
/// of the pair's presence itself: a pair that starts and ends absent is
/// reported present exactly as often as absent, no matter how many interior
/// count changes happened in between.
pub proof fn lemma_emission_balance(c: nat, ops: Seq<bool>)
    ensures
        count_of_kind(emitted_transitions(c, ops), true) - count_of_kind(
            emitted_transitions(c, ops),
            false,
        ) == (if count_after_ops(c, ops) > 0 {
            1int
        } else {
            0
        }) - (if c > 0 {
            1int
        } else {
            0
        }),
    decreases ops.len(),
{
    if ops.len() > 0 {
        let c1 = count_after_op(c, ops.first());
        let rest = emitted_transitions(c1, ops.drop_first());
        lemma_emission_balance(c1, ops.drop_first());
        if op_emits(c, ops.first()) {
            let whole = seq![ops.first()] + rest;
            assert(whole.first() == ops.first());
            assert(whole.drop_first() =~= rest);
        } else {
            assert(Seq::<bool>::empty() + rest =~= rest);
        }
    }
}

// ---------------------------------------------------------------------------
// The law of group-by synchronization: a grouped map counts, for each
// destination pair, the source pairs currently present that map onto it.
// ---------------------------------------------------------------------------

/// The set of source pairs present after one presence transition.
pub open spec fn present_after<T>(present: Set<T>, m: MultiSetModifyMessage<T>) -> Set<T> {
    match m {
        MultiSetModifyMessage::InsertOne(p) => present.insert(p),
        MultiSetModifyMessage::RemoveOne(p) => present.remove(p),
    }
}

/// A presence transition is proper for a source state: a presence only for an
/// absent element, an absence only for a present one. This is what every
/// relation of this library emits.
pub open spec fn proper_transition<T>(present: Set<T>, m: MultiSetModifyMessage<T>) -> bool {
    match m {
        MultiSetModifyMessage::InsertOne(p) => !present.contains(p),
        MultiSetModifyMessage::RemoveOne(p) => present.contains(p),
    }
}

/// A whole stream of presence transitions is proper when each is proper for
/// the state left by the ones before it.
pub open spec fn proper_transitions<T>(present: Set<T>, msgs: Seq<MultiSetModifyMessage<T>>) -> bool
    decreases msgs.len(),
{
    msgs.len() == 0 || (proper_transition(present, msgs.first()) && proper_transitions(
        present_after(present, msgs.first()),
        msgs.drop_first(),
    ))
}

/// The set of source pairs present after a whole stream of transitions.
pub open spec fn present_after_all<T>(
    present: Set<T>,
    msgs: Seq<MultiSetModifyMessage<T>>,
) -> Set<T>
    decreases msgs.len(),
{
    if msgs.len() == 0 {
        present
    } else {
        present_after_all(present_after(present, msgs.first()), msgs.drop_first())
    }
}

/// One step of group-by synchronization: if the grouped count of a
/// destination pair equals the number of present source pairs mapping onto
/// it, one proper presence transition keeps it so — source pairs colliding on
/// the same destination pair are absorbed by the refcount.
pub proof fn lemma_group_sync_step<K, V, K2, V2>(
    present: Set<(K, V)>,
    m: MultiSetModifyMessage<(K, V)>,
    f: spec_fn(K, V) -> (K2, V2),
    key2: K2,
    value2: V2,
    c: nat,
)
    requires
        present.finite(),
        proper_transition(present, m),
        c == present.filter(|p: (K, V)| f(p.0, p.1) == (key2, value2)).len(),
    ensures
        grouped_multiplicity(c, seq![m], f, key2, value2) == present_after(present, m).filter(
            |p: (K, V)| f(p.0, p.1) == (key2, value2),
        ).len(),
        present_after(present, m).finite(),
{
    broadcast use vstd::set::group_set_axioms;

    let g = |p: (K, V)| f(p.0, p.1) == (key2, value2);
    present.lemma_len_filter(g);
    assert(seq![m].drop_first() =~= Seq::<MultiSetModifyMessage<(K, V)>>::empty());
    match m {
        MultiSetModifyMessage::InsertOne(p) => {
            let c1: nat = if g(p) {
                c + 1
            } else {
                c
            };
            assert(grouped_multiplicity(c1, seq![m].drop_first(), f, key2, value2) == c1);
            assert(grouped_multiplicity(c, seq![m], f, key2, value2) == c1);
            if g(p) {
                assert(present.insert(p).filter(g) =~= present.filter(g).insert(p));
                assert(!present.filter(g).contains(p));
            } else {
                assert(present.insert(p).filter(g) =~= present.filter(g));
            }
        },
        MultiSetModifyMessage::RemoveOne(p) => {
            let c1: nat = if g(p) {
                if c > 0 {
                    (c - 1) as nat
                } else {
                    0
                }
            } else {
                c
            };
            assert(grouped_multiplicity(c1, seq![m].drop_first(), f, key2, value2) == c1);
            assert(grouped_multiplicity(c, seq![m], f, key2, value2) == c1);
            if g(p) {
                assert(present.remove(p).filter(g) =~= present.filter(g).remove(p));
                assert(present.filter(g).contains(p));
            } else {
                assert(present.remove(p).filter(g) =~= present.filter(g));
            }
        },
    }
}

/// Folding a transition stream starts with its first transition.
proof fn lemma_grouped_multiplicity_unfold<K, V, K2, V2>(
    c: nat,
    msgs: Seq<MultiSetModifyMessage<(K, V)>>,
    f: spec_fn(K, V) -> (K2, V2),
    key2: K2,
    value2: V2,
)
    requires
        msgs.len() > 0,
    ensures
        grouped_multiplicity(c, msgs, f, key2, value2) == grouped_multiplicity(
            grouped_multiplicity(c, seq![msgs.first()], f, key2, value2),
            msgs.drop_first(),
            f,
            key2,
            value2,
        ),
{
    let m = msgs.first();
    assert(seq![m].first() == m);
    assert(seq![m].drop_first() =~= Seq::<MultiSetModifyMessage<(K, V)>>::empty());
    match m {
        MultiSetModifyMessage::InsertOne(p) => {
            let c1: nat = if f(p.0, p.1) == (key2, value2) {
                c + 1
            } else {
                c
            };
            assert(grouped_multiplicity(c1, seq![m].drop_first(), f, key2, value2) == c1);
            assert(grouped_multiplicity(c, seq![m], f, key2, value2) == c1);
            assert(grouped_multiplicity(c, msgs, f, key2, value2) == grouped_multiplicity(
                c1,
                msgs.drop_first(),
                f,
                key2,
                value2,
            ));
        },
        MultiSetModifyMessage::RemoveOne(p) => {
            let c1: nat = if f(p.0, p.1) == (key2, value2) {
                if c > 0 {
                    (c - 1) as nat
                } else {
                    0
                }
            } else {
                c
            };
            assert(grouped_multiplicity(c1, seq![m].drop_first(), f, key2, value2) == c1);
            assert(grouped_multiplicity(c, seq![m], f, key2, value2) == c1);
            assert(grouped_multiplicity(c, msgs, f, key2, value2) == grouped_multiplicity(
                c1,
                msgs.drop_first(),
                f,
                key2,
                value2,
            ));
        },
    }
}

/// Group-by synchronization for a whole stream: a grouped map fed a proper
/// stream of presence transitions counts, for each destination pair, exactly
/// the source pairs currently present whose image is that pair. Together with
/// `group_step`, whose ensures fold the pending transitions into the grouped
/// counts, this pins what `get` on the grouped map answers.
pub proof fn lemma_group_sync<K, V, K2, V2>(
    present: Set<(K, V)>,
    msgs: Seq<MultiSetModifyMessage<(K, V)>>,
    f: spec_fn(K, V) -> (K2, V2),
    key2: K2,
    value2: V2,
    c: nat,
)
    requires
        present.finite(),
        proper_transitions(present, msgs),
        c == present.filter(|p: (K, V)| f(p.0, p.1) == (key2, value2)).len(),
    ensures
        grouped_multiplicity(c, msgs, f, key2, value2) == present_after_all(present, msgs).filter(
            |p: (K, V)| f(p.0, p.1) == (key2, value2),
        ).len(),
    decreases msgs.len(),
{
    if msgs.len() > 0 {
        let m = msgs.first();
        lemma_group_sync_step(present, m, f, key2, value2, c);
        let c1 = grouped_multiplicity(c, seq![m], f, key2, value2);
        lemma_grouped_multiplicity_unfold(c, msgs, f, key2, value2);
        lemma_group_sync(present_after(present, m), msgs.drop_first(), f, key2, value2, c1);
    }
}

} // verus!

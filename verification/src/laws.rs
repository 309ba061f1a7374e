//! What holds of every reconciliation, proved from the contract of
//! [`Host::write_settings`](crate::host::Host::write_settings).
//!
//! The laws speak of a call through [`reconciled`], the relation that the
//! call ensures between the history of the bus and the cached configuration
//! before it, the same after it, and its result.

use crate::bus::{in_turn, last_accepted, Exchange};
use crate::host::{reconciled, Field, HostConfig};
use crate::register;
use vstd::prelude::*;

verus! {

/// The changed settings stand in write order, each at most once, and they
/// are exactly the settings on which the two configurations disagree.
pub proof fn law_changed_in_write_order(current: HostConfig, desired: HostConfig)
    ensures
        forall|i: int, j: int|
            0 <= i < j < current.changed(desired).len() ==> (#[trigger] current.changed(
                desired,
            )[i]).place() < (#[trigger] current.changed(desired)[j]).place(),
        forall|field: Field| #[trigger]
            current.changed(desired).contains(field) <==> current.differs(desired, field),
        forall|field: Field| #[trigger]
            current.differs(desired, field) ==> current.changed(desired)[current.rank(
                desired,
                field,
            )] == field,
{
    let todo = current.changed(desired);
    assert forall|field: Field| #[trigger] current.differs(desired, field) implies todo.contains(
        field,
    ) && todo[current.rank(desired, field)] == field by {
        let k = current.rank(desired, field);
        assert(todo[k] == field);
    }
}

/// A changed setting stands among the changed ones at the place that its
/// rank gives.
proof fn lemma_rank_is_index(current: HostConfig, desired: HostConfig, i: int)
    requires
        0 <= i < current.changed(desired).len(),
    ensures
        current.differs(desired, current.changed(desired)[i]),
        current.rank(desired, current.changed(desired)[i]) == i,
{
    let todo = current.changed(desired);
    let k = current.rank(desired, todo[i]);
    law_changed_in_write_order(current, desired);
    assert(todo.contains(todo[i]));
    assert(todo[k] == todo[i]);
    if k < i {
        assert(todo[k].place() < todo[i].place());
    }
    if i < k {
        assert(todo[i].place() < todo[k].place());
    }
}

/// Each pending frame goes to the common register block, to the register
/// of its setting, and carries the desired value of that setting: as many
/// bytes as the register is wide, first byte of the address first.
pub proof fn law_frames_encode_settings(current: HostConfig, desired: HostConfig)
    ensures
        current.pending(desired).len() == current.changed(desired).len(),
        forall|i: int|
            0 <= i < current.pending(desired).len() ==> {
                let frame = #[trigger] current.pending(desired)[i];
                let field = current.changed(desired)[i];
                &&& frame.block == register::COMMON
                &&& frame.address == field.register()
                &&& frame.payload == desired.octets(field)
                &&& frame.payload.len() == field.width()
            },
        desired.octets(Field::Gateway) == desired.gateway.octets@,
        desired.octets(Field::Subnet) == desired.subnet.octets@,
        desired.octets(Field::Mac) == desired.mac.octets@,
        desired.octets(Field::Ip) == desired.ip.octets@,
{
}

/// Nothing is pending exactly when the two configurations are equal.
pub proof fn law_nothing_pending_iff_equal(current: HostConfig, desired: HostConfig)
    ensures
        current.pending(desired).len() == 0 <==> current == desired,
{
}

/// Where the cached configuration already is the desired one, the call
/// writes nothing and succeeds.
pub proof fn law_agreement_is_silent<E>(
    before: Seq<Exchange<E>>,
    current: HostConfig,
    after: Seq<Exchange<E>>,
    updated: HostConfig,
    r: Result<(), E>,
)
    requires
        reconciled(before, current, current, after, updated, r),
    ensures
        r is Ok,
        after == before,
        updated == current,
{
    assert(after =~= before);
}

/// Of two calls in a row with the same desired configuration, the first of
/// which succeeds, the first writes every pending frame once, and the
/// second writes nothing.
pub proof fn law_repeat_is_silent<E>(
    before: Seq<Exchange<E>>,
    current: HostConfig,
    desired: HostConfig,
    between: Seq<Exchange<E>>,
    first: HostConfig,
    r1: Result<(), E>,
    after: Seq<Exchange<E>>,
    second: HostConfig,
    r2: Result<(), E>,
)
    requires
        reconciled(before, current, desired, between, first, r1),
        r1 is Ok,
        reconciled(between, first, desired, after, second, r2),
    ensures
        between == before + in_turn(current.pending(desired), r1),
        r2 is Ok,
        after == between,
        second == desired,
{
    let plan = current.pending(desired);
    assert(plan.take(plan.len() as int) =~= plan);
    law_agreement_is_silent(between, first, after, second, r2);
}

/// The frames that a call puts on the bus are the first of the pending
/// ones, in write order: gateway before subnet mask before hardware address
/// before IP address, whichever of them changed.
pub proof fn law_writes_in_order<E>(
    before: Seq<Exchange<E>>,
    current: HostConfig,
    settings: HostConfig,
    after: Seq<Exchange<E>>,
    updated: HostConfig,
    r: Result<(), E>,
)
    requires
        reconciled(before, current, settings, after, updated, r),
    ensures
        before.len() <= after.len() <= before.len() + current.changed(settings).len(),
        forall|i: int|
            0 <= i < before.len() ==> #[trigger] after[i] == before[i],
        forall|i: int|
            0 <= i < after.len() - before.len() ==> (#[trigger] after[before.len()
                + i]).frame == settings.frame(current.changed(settings)[i]),
        forall|i: int, j: int|
            before.len() <= i < j < after.len() ==> (#[trigger] after[i]).frame.address
                < (#[trigger] after[j]).frame.address,
{
    law_changed_in_write_order(current, settings);
    law_frames_encode_settings(current, settings);
    let todo = current.changed(settings);
    let plan = current.pending(settings);
    let n = after.len() - before.len();
    assert forall|i: int| 0 <= i < n implies (#[trigger] after[before.len() + i]).frame
        == settings.frame(todo[i]) by {
        assert(after[before.len() + i] == in_turn(plan.take(n), r)[i]);
        assert(plan.take(n)[i] == plan[i]);
    }
    assert forall|i: int, j: int| before.len() <= i < j < after.len() implies (
    #[trigger] after[i]).frame.address < (#[trigger] after[j]).frame.address by {
        let a = i - before.len();
        let b = j - before.len();
        assert(after[before.len() + a].frame == settings.frame(todo[a]));
        assert(after[before.len() + b].frame == settings.frame(todo[b]));
        assert(todo[a].place() < todo[b].place());
    }
}

/// Where a call fails, the bus refused the last frame that the call put on
/// it, and the call returns that refusal. The frames before it were
/// accepted, and their settings are now as desired. The setting of the
/// refused frame and all later ones are as they were, and so are the
/// settings that had not changed.
pub proof fn law_failure_keeps_prefix<E>(
    before: Seq<Exchange<E>>,
    current: HostConfig,
    settings: HostConfig,
    after: Seq<Exchange<E>>,
    updated: HostConfig,
    r: Result<(), E>,
)
    requires
        reconciled(before, current, settings, after, updated, r),
        r is Err,
    ensures
        before.len() < after.len() <= before.len() + current.changed(settings).len(),
        after.last().outcome == r,
        forall|i: int|
            before.len() <= i < after.len() - 1 ==> (#[trigger] after[i]).outcome is Ok,
        forall|i: int|
            0 <= i < after.len() - before.len() - 1 ==> !updated.differs(
                settings,
                #[trigger] current.changed(settings)[i],
            ),
        forall|i: int|
            after.len() - before.len() - 1 <= i < current.changed(settings).len()
                ==> !updated.differs(current, #[trigger] current.changed(settings)[i]),
        forall|field: Field|
            !current.differs(settings, field) ==> !#[trigger] updated.differs(current, field),
{
    let todo = current.changed(settings);
    let plan = current.pending(settings);
    let n = after.len() - before.len();
    assert(after.last() == in_turn(plan.take(n), r)[n - 1]);
    assert forall|i: int| before.len() <= i < after.len() - 1 implies (
    #[trigger] after[i]).outcome is Ok by {
        assert(after[i] == in_turn(plan.take(n), r)[i - before.len()]);
    }
    assert forall|i: int| 0 <= i < n - 1 implies !updated.differs(
        settings,
        #[trigger] todo[i],
    ) by {
        lemma_rank_is_index(current, settings, i);
    }
    assert forall|i: int| n - 1 <= i < todo.len() implies !updated.differs(
        current,
        #[trigger] todo[i],
    ) by {
        lemma_rank_is_index(current, settings, i);
    }
}

/// Before any write went through the configuration is as it was, and after
/// all of them it is the desired one.
pub proof fn law_advance_starts_and_ends(current: HostConfig, desired: HostConfig)
    ensures
        current.advanced(desired, 0) == current,
        current.advanced(desired, current.changed(desired).len() as int) == desired,
{
    law_changed_in_write_order(current, desired);
}

/// Each further write that goes through takes over the next changed
/// setting, and nothing else.
pub proof fn law_advances_one_by_one(current: HostConfig, desired: HostConfig, n: int)
    requires
        0 <= n < current.changed(desired).len(),
    ensures
        current.advanced(desired, n + 1) == current.advanced(desired, n).with(
            desired,
            current.changed(desired)[n],
        ),
{
    law_changed_in_write_order(current, desired);
}

/// A call that failed can be taken up again: after the first `n` writes
/// went through, the writes that are pending are the remaining ones.
pub proof fn law_retry_resumes(current: HostConfig, desired: HostConfig, n: int)
    requires
        0 <= n <= current.changed(desired).len(),
    ensures
        current.advanced(desired, n).changed(desired) == current.changed(desired).skip(n),
        current.advanced(desired, n).pending(desired) == current.pending(desired).skip(n),
{
    law_changed_in_write_order(current, desired);
    let rest = current.advanced(desired, n);
    assert(rest.changed(desired) =~= current.changed(desired).skip(n));
    assert(rest.pending(desired) =~= current.pending(desired).skip(n));
}

/// The configuration of a chip that was never set up mirrors the empty
/// history.
pub proof fn law_unset_cache_mirrors_nothing<E>(config: HostConfig)
    requires
        config.is_unspecified(),
    ensures
        config.mirrors(Seq::<Exchange<E>>::empty()),
{
    assert forall|field: Field|
        config.octets(field) == match #[trigger] last_accepted(
            Seq::<Exchange<E>>::empty(),
            register::COMMON,
            field.register(),
        ) {
            Some(bytes) => bytes,
            None => Seq::new(field.width(), |i: int| 0u8),
        } by {
        assert(config.octets(field) =~= Seq::new(field.width(), |i: int| 0u8));
    }
}

/// The accepted writes of a call, taken one by one, keep the cache and the
/// chip in step.
proof fn lemma_mirrors_accepted<E>(
    before: Seq<Exchange<E>>,
    current: HostConfig,
    settings: HostConfig,
    m: int,
)
    requires
        current.mirrors(before),
        0 <= m <= current.changed(settings).len(),
    ensures
        current.advanced(settings, m).mirrors(
            before + in_turn::<E>(current.pending(settings).take(m), Ok(())),
        ),
    decreases m,
{
    let plan = current.pending(settings);
    let todo = current.changed(settings);
    let history = before + in_turn::<E>(plan.take(m), Ok(()));
    if m == 0 {
        assert(history =~= before);
    } else {
        lemma_mirrors_accepted(before, current, settings, m - 1);
        law_advances_one_by_one(current, settings, m - 1);
        law_frames_encode_settings(current, settings);
        let earlier = before + in_turn::<E>(plan.take(m - 1), Ok(()));
        let cache = current.advanced(settings, m - 1);
        assert(history.drop_last() =~= earlier);
        assert(history.last() == Exchange::<E> { frame: plan[m - 1], outcome: Ok(()) });
        assert forall|field: Field|
            cache.with(settings, todo[m - 1]).octets(field) == match #[trigger] last_accepted(
                history,
                register::COMMON,
                field.register(),
            ) {
                Some(bytes) => bytes,
                None => Seq::new(field.width(), |i: int| 0u8),
            } by {
            if field != todo[m - 1] {
                assert(last_accepted(history, register::COMMON, field.register())
                    == last_accepted(earlier, register::COMMON, field.register()));
            }
        }
    }
}

/// A call keeps the cache and the chip in step: where the cached
/// configuration mirrored the history of the bus before the call, the
/// updated one mirrors the history after it, whether the call succeeded or
/// failed.
pub proof fn law_cache_mirrors_chip<E>(
    before: Seq<Exchange<E>>,
    current: HostConfig,
    settings: HostConfig,
    after: Seq<Exchange<E>>,
    updated: HostConfig,
    r: Result<(), E>,
)
    requires
        current.mirrors(before),
        reconciled(before, current, settings, after, updated, r),
    ensures
        updated.mirrors(after),
{
    let plan = current.pending(settings);
    let n = after.len() - before.len();
    law_advance_starts_and_ends(current, settings);
    match r {
        Ok(unit) => {
            assert(unit == ());
            lemma_mirrors_accepted::<E>(before, current, settings, n);
        },
        Err(e) => {
            lemma_mirrors_accepted::<E>(before, current, settings, n - 1);
            let earlier = before + in_turn::<E>(plan.take(n - 1), Ok(()));
            assert(after.drop_last() =~= earlier);
            assert(after.last().outcome == r);
            assert forall|field: Field|
                updated.octets(field) == match #[trigger] last_accepted(
                    after,
                    register::COMMON,
                    field.register(),
                ) {
                    Some(bytes) => bytes,
                    None => Seq::new(field.width(), |i: int| 0u8),
                } by {
                assert(last_accepted(after, register::COMMON, field.register())
                    == last_accepted(earlier, register::COMMON, field.register()));
            }
        },
    }
}

} // verus!

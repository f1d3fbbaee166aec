//! Operational transformation: adjusting an operation so that it can follow
//! another one that was made on the same text.

use vstd::prelude::*;
use crate::error::CollaborationError;
use crate::operation::{
    apply_steps, consumed_len, deleted_len, inserted_len, lemma_deleted_le_consumed,
    lemma_lengths_concat, lemma_lengths_push, lemma_optional_lengths, lemma_steps_push, min_len,
    no_empty_steps, optional, steps_of, OpComponent, OperationView, Step, TextOperation,
};

verus! {

/// The step with its count set to `count`; an insert stays as it is.
pub open spec fn resized(step: Step, count: nat) -> Step {
    match step {
        Step::Retain(_) => Step::Retain(count),
        Step::Insert(s) => Step::Insert(s),
        Step::Delete(_) => Step::Delete(count),
    }
}

/// What is left of an edit script once `used` characters of its first step
/// are dealt with: the rest of that step, if any, and the steps after it.
pub open spec fn after_first(steps: Seq<Step>, used: nat) -> Seq<Step>
    recommends
        steps.len() > 0,
        used <= steps[0].consumed(),
{
    if used >= steps[0].consumed() {
        steps.drop_first()
    } else {
        seq![resized(steps[0], (steps[0].consumed() - used) as nat)] + steps.drop_first()
    }
}

/// The remote edit script as it has to run on the text that the local one
/// has already changed. Both scripts start from the same text and are walked
/// side by side:
///
/// - text that the local script inserts is new to the remote one, which
///   keeps it; where both insert at the same place, the local text comes
///   first;
/// - text that the remote script inserts is inserted;
/// - where both keep, the result keeps;
/// - where the local script keeps and the remote one deletes, the result
///   deletes;
/// - where the local script deletes, the text is gone already and the result
///   has no step for it, whether the remote script keeps or deletes it.
pub open spec fn transform_steps(local: Seq<Step>, remote: Seq<Step>) -> Seq<Step>
    decreases local.len() + remote.len(),
{
    if local.len() > 0 && local[0] is Insert {
        optional(Step::Retain(local[0].inserted())) + transform_steps(local.drop_first(), remote)
    } else if remote.len() > 0 && remote[0] is Insert {
        optional(remote[0]) + transform_steps(local, remote.drop_first())
    } else if local.len() == 0 || remote.len() == 0 {
        Seq::<Step>::empty()
    } else {
        let m = min_len(local[0].consumed(), remote[0].consumed());
        let rest = transform_steps(after_first(local, m), after_first(remote, m));
        match (local[0], remote[0]) {
            (Step::Retain(_), Step::Retain(_)) => optional(Step::Retain(m)) + rest,
            (Step::Retain(_), Step::Delete(_)) => optional(Step::Delete(m)) + rest,
            _ => rest,
        }
    }
}

/// Length of the text that the transformed remote script produces.
pub open spec fn transformed_target_len(local: Seq<Step>, remote: Seq<Step>) -> int {
    let t = transform_steps(local, remote);
    consumed_len(t) - deleted_len(t) + inserted_len(t)
}

/// The remote operation as it has to run after the local one, or why there
/// is none: `RevisionMismatch` where the two do not start from texts of one
/// length, `LengthOverflow` where the length of the merged text does not fit
/// the machine's word.
pub open spec fn transform_model(local: OperationView, remote: OperationView) -> Result<
    OperationView,
    CollaborationError,
> {
    if local.base_length != remote.base_length {
        Err(CollaborationError::RevisionMismatch)
    } else if transformed_target_len(local.steps, remote.steps) > usize::MAX {
        Err(CollaborationError::LengthOverflow)
    } else {
        Ok(
            OperationView {
                steps: transform_steps(local.steps, remote.steps),
                base_length: local.target_length,
                target_length: transformed_target_len(local.steps, remote.steps) as nat,
            },
        )
    }
}

/// Two edit scripts without empty steps, one after the other, have none.
pub proof fn lemma_no_empty_concat(s1: Seq<Step>, s2: Seq<Step>)
    requires
        no_empty_steps(s1),
        no_empty_steps(s2),
    ensures
        no_empty_steps(s1 + s2),
{
    assert forall|i: int| 0 <= i < (s1 + s2).len() implies !(#[trigger] (s1 + s2)[i]).is_empty() by {
        if i < s1.len() {
            assert((s1 + s2)[i] == s1[i]);
        } else {
            assert((s1 + s2)[i] == s2[i - s1.len()]);
        }
    }
}

/// The steps after the first are without empty steps if all are.
pub proof fn lemma_no_empty_rest(steps: Seq<Step>)
    requires
        steps.len() > 0,
        no_empty_steps(steps),
    ensures
        no_empty_steps(steps.drop_first()),
        !steps[0].is_empty(),
{
    assert forall|i: int| 0 <= i < steps.drop_first().len() implies !(#[trigger] steps.drop_first()[i]).is_empty() by {
        assert(steps.drop_first()[i] == steps[i + 1]);
    }
}

/// What using up part of a first retain or delete does to the sums.
pub proof fn lemma_after_first(steps: Seq<Step>, used: nat)
    requires
        steps.len() > 0,
        !(steps[0] is Insert),
        used <= steps[0].consumed(),
        no_empty_steps(steps),
    ensures
        no_empty_steps(after_first(steps, used)),
        consumed_len(after_first(steps, used)) == consumed_len(steps) - used,
        inserted_len(after_first(steps, used)) == inserted_len(steps),
        deleted_len(after_first(steps, used)) == deleted_len(steps) - (if steps[0] is Delete {
            used
        } else {
            0
        }),
        after_first(steps, used).len() <= steps.len(),
        used == steps[0].consumed() ==> after_first(steps, used).len() < steps.len(),
{
    lemma_no_empty_rest(steps);
    if used < steps[0].consumed() {
        let head = resized(steps[0], (steps[0].consumed() - used) as nat);
        let rest = after_first(steps, used);
        assert(rest[0] == head);
        assert(rest.drop_first() =~= steps.drop_first());
        assert(no_empty_steps(seq![head]));
        lemma_no_empty_concat(seq![head], steps.drop_first());
    }
}

/// The transformed script has no empty steps, starts from the text that the
/// local script produces, inserts what the remote script inserts and deletes
/// no more than it.
pub proof fn lemma_transform_lengths(local: Seq<Step>, remote: Seq<Step>)
    requires
        no_empty_steps(local),
        no_empty_steps(remote),
        consumed_len(local) == consumed_len(remote),
    ensures
        no_empty_steps(transform_steps(local, remote)),
        consumed_len(transform_steps(local, remote)) == consumed_len(local) - deleted_len(local)
            + inserted_len(local),
        inserted_len(transform_steps(local, remote)) == inserted_len(remote),
        deleted_len(transform_steps(local, remote)) <= deleted_len(remote),
    decreases local.len() + remote.len(),
{
    lemma_deleted_le_consumed(local);
    if local.len() > 0 && local[0] is Insert {
        let head = optional(Step::Retain(local[0].inserted()));
        lemma_no_empty_rest(local);
        lemma_transform_lengths(local.drop_first(), remote);
        let rest = transform_steps(local.drop_first(), remote);
        lemma_optional_lengths(Step::Retain(local[0].inserted()));
        lemma_lengths_concat(head, rest);
        lemma_no_empty_concat(head, rest);
    } else if remote.len() > 0 && remote[0] is Insert {
        let head = optional(remote[0]);
        lemma_no_empty_rest(remote);
        lemma_transform_lengths(local, remote.drop_first());
        let rest = transform_steps(local, remote.drop_first());
        lemma_optional_lengths(remote[0]);
        lemma_lengths_concat(head, rest);
        lemma_no_empty_concat(head, rest);
    } else if local.len() == 0 || remote.len() == 0 {
        if local.len() > 0 {
            lemma_no_empty_rest(local);
        }
        if remote.len() > 0 {
            lemma_no_empty_rest(remote);
        }
    } else {
        let m = min_len(local[0].consumed(), remote[0].consumed());
        lemma_after_first(local, m);
        lemma_after_first(remote, m);
        lemma_transform_lengths(after_first(local, m), after_first(remote, m));
        let rest = transform_steps(after_first(local, m), after_first(remote, m));
        lemma_optional_lengths(Step::Retain(m));
        lemma_optional_lengths(Step::Delete(m));
        lemma_lengths_concat(optional(Step::Retain(m)), rest);
        lemma_lengths_concat(optional(Step::Delete(m)), rest);
        lemma_no_empty_concat(optional(Step::Retain(m)), rest);
        lemma_no_empty_concat(optional(Step::Delete(m)), rest);
    }
}

/// What is left of `steps` at step `i`, of which `left` characters remain.
spec fn remaining(steps: Seq<Step>, i: int, left: nat) -> Seq<Step> {
    if 0 <= i < steps.len() {
        seq![resized(steps[i], left)] + steps.skip(i + 1)
    } else {
        Seq::<Step>::empty()
    }
}

/// The count of the step at `i`, or zero past the end.
spec fn count_at(steps: Seq<Step>, i: int) -> nat {
    if 0 <= i < steps.len() {
        steps[i].consumed()
    } else {
        0
    }
}

proof fn lemma_remaining_whole(steps: Seq<Step>, i: int)
    requires
        0 <= i <= steps.len(),
    ensures
        remaining(steps, i, count_at(steps, i)) == steps.skip(i),
{
    if i < steps.len() {
        assert(resized(steps[i], steps[i].consumed()) == steps[i]);
        assert(remaining(steps, i, count_at(steps, i)) =~= steps.skip(i));
    } else {
        assert(remaining(steps, i, count_at(steps, i)) =~= steps.skip(i));
    }
}

proof fn lemma_remaining_step(steps: Seq<Step>, i: int, left: nat, used: nat)
    requires
        0 <= i < steps.len(),
        used <= left,
        !(steps[i] is Insert) || used == 0,
    ensures
        remaining(steps, i, left)[0] == resized(steps[i], left),
        remaining(steps, i, left).drop_first() == remaining(steps, i + 1, count_at(steps, i + 1)),
        !(steps[i] is Insert) ==> after_first(remaining(steps, i, left), used) == (if used
            == left {
            remaining(steps, i + 1, count_at(steps, i + 1))
        } else {
            remaining(steps, i, (left - used) as nat)
        }),
{
    lemma_remaining_whole(steps, i + 1);
    let r = remaining(steps, i, left);
    assert(r.drop_first() =~= steps.skip(i + 1));
    if !(steps[i] is Insert) && used < left {
        assert(after_first(r, used) =~= remaining(steps, i, (left - used) as nat));
    }
}

/// The count of the component at `i`, or zero past the end.
fn count_of(ops: &Vec<OpComponent>, i: usize) -> (n: usize)
    ensures
        n == count_at(steps_of(ops@), i as int),
{
    if i < ops.len() {
        match &ops[i] {
            OpComponent::Retain(n) => *n,
            OpComponent::Insert(_) => 0,
            OpComponent::Delete(n) => *n,
        }
    } else {
        0
    }
}

/// The remote operation as it has to run after the local one, both made on
/// the same text: `transform_steps` of the two edit scripts, from the text that
/// the local operation produces.
///
/// Fails with `RevisionMismatch` where the two do not start from texts of one
/// length, and with `LengthOverflow` where the length of the merged text does
/// not fit the machine's word.
pub fn transform(local: &TextOperation, remote: &TextOperation) -> (res: Result<
    TextOperation,
    CollaborationError,
>)
    requires
        local.wf(),
        remote.wf(),
    ensures
        match res {
            Ok(op) => transform_model(local@, remote@) == Ok::<OperationView, CollaborationError>(op@)
                && op.wf(),
            Err(e) => transform_model(local@, remote@) == Err::<OperationView, CollaborationError>(e),
        },
{
    if local.base_length != remote.base_length {
        return Err(CollaborationError::RevisionMismatch);
    }
    let ghost ls = local.steps();
    let ghost rs = remote.steps();
    let ghost whole = transform_steps(ls, rs);
    let mut out: Vec<OpComponent> = Vec::new();
    let mut deleted: usize = 0;
    let mut inserted: usize = 0;
    let mut i: usize = 0;
    let mut j: usize = 0;
    let mut left_local: usize = count_of(&local.ops, 0);
    let mut left_remote: usize = count_of(&remote.ops, 0);
    proof {
        lemma_transform_lengths(ls, rs);
        lemma_deleted_le_consumed(rs);
        lemma_deleted_le_consumed(ls);
        lemma_deleted_le_consumed(whole);
        lemma_remaining_whole(ls, 0);
        lemma_remaining_whole(rs, 0);
        assert(ls.skip(0) =~= ls);
        assert(rs.skip(0) =~= rs);
        assert(steps_of(out@) =~= Seq::<Step>::empty());
        assert(steps_of(out@) + whole =~= whole);
    }
    while i < local.ops.len() || j < remote.ops.len()
        invariant
            ls == local.steps(),
            rs == remote.steps(),
            whole == transform_steps(ls, rs),
            i <= local.ops.len(),
            j <= remote.ops.len(),
            no_empty_steps(remaining(ls, i as int, left_local as nat)),
            no_empty_steps(remaining(rs, j as int, left_remote as nat)),
            consumed_len(remaining(ls, i as int, left_local as nat)) == consumed_len(
                remaining(rs, j as int, left_remote as nat),
            ),
            whole == steps_of(out@) + transform_steps(
                remaining(ls, i as int, left_local as nat),
                remaining(rs, j as int, left_remote as nat),
            ),
            deleted == deleted_len(steps_of(out@)),
            inserted == inserted_len(steps_of(out@)),
            inserted_len(whole) <= usize::MAX,
            deleted_len(whole) <= usize::MAX,
        decreases (local.ops.len() - i) + (remote.ops.len() - j), left_local + left_remote,
    {
        let ghost rem_l = remaining(ls, i as int, left_local as nat);
        let ghost rem_r = remaining(rs, j as int, left_remote as nat);
        let ghost before = steps_of(out@);
        let mut done: bool = false;
        if i < local.ops.len() {
            match &local.ops[i] {
                OpComponent::Insert(text) => {
                    let kept: usize = text.as_str().unicode_len();
                    proof {
                        assert(ls[i as int] == local.ops[i as int]@);
                        lemma_remaining_step(ls, i as int, left_local as nat, 0);
                        lemma_no_empty_rest(rem_l);
                        assert(rem_l[0] == ls[i as int]);
                        assert(kept > 0);
                        lemma_steps_push(out@, OpComponent::Retain(kept));
                        lemma_lengths_push(before, Step::Retain(kept as nat));
                        let next = transform_steps(rem_l.drop_first(), rem_r);
                        assert(before.push(Step::Retain(kept as nat)) + next =~= before + (seq![
                            Step::Retain(kept as nat),
                        ] + next));
                    }
                    out.push(OpComponent::Retain(kept));
                    i = i + 1;
                    left_local = count_of(&local.ops, i);
                    done = true;
                },
                _ => {},
            }
        }
        if !done && j < remote.ops.len() {
            match &remote.ops[j] {
                OpComponent::Insert(text) => {
                    let added: usize = text.as_str().unicode_len();
                    let copy = text.clone();
                    proof {
                        assert(rs[j as int] == remote.ops[j as int]@);
                        lemma_remaining_step(rs, j as int, left_remote as nat, 0);
                        lemma_no_empty_rest(rem_r);
                        assert(rem_r[0] == rs[j as int]);
                        if i < local.ops.len() {
                            assert(ls[i as int] == local.ops[i as int]@);
                            lemma_remaining_step(ls, i as int, left_local as nat, 0);
                        }
                        lemma_steps_push(out@, OpComponent::Insert(copy));
                        lemma_lengths_push(before, Step::Insert(text@));
                        let next = transform_steps(rem_l, rem_r.drop_first());
                        assert(before.push(Step::Insert(text@)) + next =~= before + (seq![
                            Step::Insert(text@),
                        ] + next));
                        lemma_lengths_concat(before.push(Step::Insert(text@)), next);
                    }
                    out.push(OpComponent::Insert(copy));
                    inserted = inserted + added;
                    j = j + 1;
                    left_remote = count_of(&remote.ops, j);
                    done = true;
                },
                _ => {},
            }
        }
        if !done {
            proof {
                if i < local.ops.len() {
                    assert(ls[i as int] == local.ops[i as int]@);
                    lemma_remaining_step(ls, i as int, left_local as nat, 0);
                    lemma_no_empty_rest(rem_l);
                }
                if j < remote.ops.len() {
                    assert(rs[j as int] == remote.ops[j as int]@);
                    lemma_remaining_step(rs, j as int, left_remote as nat, 0);
                    lemma_no_empty_rest(rem_r);
                }
            }
            assert(i < local.ops.len() && j < remote.ops.len());
            let used: usize = if left_local <= left_remote {
                left_local
            } else {
                left_remote
            };
            proof {
                lemma_remaining_step(ls, i as int, left_local as nat, used as nat);
                lemma_remaining_step(rs, j as int, left_remote as nat, used as nat);
                lemma_after_first(rem_l, used as nat);
                lemma_after_first(rem_r, used as nat);
            }
            let ghost next = transform_steps(
                after_first(rem_l, used as nat),
                after_first(rem_r, used as nat),
            );
            match (&local.ops[i], &remote.ops[j]) {
                (OpComponent::Retain(_), OpComponent::Retain(_)) => {
                    proof {
                        lemma_steps_push(out@, OpComponent::Retain(used));
                        lemma_lengths_push(before, Step::Retain(used as nat));
                        assert(before.push(Step::Retain(used as nat)) + next =~= before + (seq![
                            Step::Retain(used as nat),
                        ] + next));
                    }
                    out.push(OpComponent::Retain(used));
                },
                (OpComponent::Retain(_), OpComponent::Delete(_)) => {
                    proof {
                        lemma_steps_push(out@, OpComponent::Delete(used));
                        lemma_lengths_push(before, Step::Delete(used as nat));
                        assert(before.push(Step::Delete(used as nat)) + next =~= before + (seq![
                            Step::Delete(used as nat),
                        ] + next));
                        lemma_lengths_concat(before.push(Step::Delete(used as nat)), next);
                    }
                    out.push(OpComponent::Delete(used));
                    deleted = deleted + used;
                },
                _ => {},
            }
            if used == left_local {
                i = i + 1;
                left_local = count_of(&local.ops, i);
            } else {
                left_local = left_local - used;
            }
            if used == left_remote {
                j = j + 1;
                left_remote = count_of(&remote.ops, j);
            } else {
                left_remote = left_remote - used;
            }
        }
    }
    proof {
        assert(remaining(ls, i as int, left_local as nat) =~= Seq::<Step>::empty());
        assert(remaining(rs, j as int, left_remote as nat) =~= Seq::<Step>::empty());
        assert(steps_of(out@) + Seq::<Step>::empty() =~= steps_of(out@));
    }
    let kept: usize = local.target_length - deleted;
    if inserted > usize::MAX - kept {
        return Err(CollaborationError::LengthOverflow);
    }
    Ok(TextOperation { ops: out, base_length: local.target_length, target_length: kept + inserted })
}

} // verus!

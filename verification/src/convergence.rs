//! Why transformed operations converge: two participants who apply their own
//! operation and then the transformed operation of the other end with the
//! same text.

use vstd::prelude::*;
use crate::operation::{
    apply_steps, consumed_len, lemma_apply_first, min_len, no_empty_steps, optional, Step,
    TextOperation,
};
use crate::transform::{
    after_first, lemma_after_first, lemma_no_empty_rest, resized, transform_steps,
};

verus! {

/// The text that an edit script inserts at `place`, counted in characters of
/// the text before the edit.
pub open spec fn inserted_at(steps: Seq<Step>, place: nat) -> Seq<char>
    decreases steps.len(),
{
    if steps.len() == 0 {
        Seq::<char>::empty()
    } else {
        match steps[0] {
            Step::Insert(s) => if place == 0 {
                s + inserted_at(steps.drop_first(), 0)
            } else {
                inserted_at(steps.drop_first(), place)
            },
            _ => if place < steps[0].consumed() {
                Seq::<char>::empty()
            } else {
                inserted_at(steps.drop_first(), (place - steps[0].consumed()) as nat)
            },
        }
    }
}

/// The order of the two texts does not matter when they are joined.
pub open spec fn commute(x: Seq<char>, y: Seq<char>) -> bool {
    x + y == y + x
}

/// Wherever both edit scripts insert at one place, the two inserted texts
/// give the same text in either order. This holds in particular where the two
/// never insert at the same place.
pub open spec fn inserts_commute(a: Seq<Step>, b: Seq<Step>) -> bool {
    forall|place: nat| commute(#[trigger] inserted_at(a, place), inserted_at(b, place))
}

/// The text that results from `text` when two edit scripts made on it have
/// both run: what either deletes is gone, what either inserts is there, and
/// where both insert at one place the text of `first` comes first.
pub open spec fn merged(first: Seq<Step>, second: Seq<Step>, text: Seq<char>) -> Seq<char>
    decreases first.len() + second.len(),
{
    if first.len() > 0 && first[0] is Insert {
        first[0]->Insert_0 + merged(first.drop_first(), second, text)
    } else if second.len() > 0 && second[0] is Insert {
        second[0]->Insert_0 + merged(first, second.drop_first(), text)
    } else if first.len() == 0 || second.len() == 0 {
        text
    } else {
        let m = min_len(first[0].consumed(), second[0].consumed());
        let rest = merged(after_first(first, m), after_first(second, m), text.skip(m as int));
        match (first[0], second[0]) {
            (Step::Retain(_), Step::Retain(_)) => text.take(m as int) + rest,
            _ => rest,
        }
    }
}

/// Running a script whose first step is a retain or a delete is running the
/// first `used` characters of that step and then what is left of the script.
proof fn lemma_apply_split(steps: Seq<Step>, used: nat, text: Seq<char>)
    requires
        steps.len() > 0,
        !(steps[0] is Insert),
        used <= steps[0].consumed() <= text.len(),
    ensures
        apply_steps(steps, text) == (if steps[0] is Retain {
            text.take(used as int)
        } else {
            Seq::<char>::empty()
        }) + apply_steps(after_first(steps, used), text.skip(used as int)),
{
    let n = steps[0].consumed();
    let tail = steps.drop_first();
    let later = text.skip(used as int);
    if used < n {
        let head = resized(steps[0], (n - used) as nat);
        lemma_apply_first(head, tail, later);
        assert(later.skip(n - used) =~= text.skip(n as int));
        assert(text.take(used as int) + later.take(n - used) =~= text.take(n as int));
        if steps[0] is Retain {
            assert(apply_steps(steps, text) =~= text.take(used as int) + apply_steps(
                after_first(steps, used),
                later,
            ));
        } else {
            assert(apply_steps(steps, text) =~= Seq::<char>::empty() + apply_steps(
                after_first(steps, used),
                later,
            ));
        }
    } else {
        if steps[0] is Retain {
        } else {
            assert(apply_steps(steps, text) =~= Seq::<char>::empty() + apply_steps(
                after_first(steps, used),
                later,
            ));
        }
    }
}

/// Applying the local script and then the transformed remote script gives
/// the merged text in which local insertions come first.
pub proof fn lemma_transform_merges(local: Seq<Step>, remote: Seq<Step>, text: Seq<char>)
    requires
        no_empty_steps(local),
        no_empty_steps(remote),
        consumed_len(local) == text.len(),
        consumed_len(remote) == text.len(),
    ensures
        apply_steps(transform_steps(local, remote), apply_steps(local, text)) == merged(
            local,
            remote,
            text,
        ),
    decreases local.len() + remote.len(),
{
    if local.len() > 0 && local[0] is Insert {
        let s = local[0]->Insert_0;
        let tail = local.drop_first();
        lemma_no_empty_rest(local);
        lemma_transform_merges(tail, remote, text);
        let next = transform_steps(tail, remote);
        let after = apply_steps(tail, text);
        lemma_apply_first(Step::Retain(s.len()), next, s + after);
        assert((s + after).take(s.len() as int) =~= s);
        assert((s + after).skip(s.len() as int) =~= after);
    } else if remote.len() > 0 && remote[0] is Insert {
        let s = remote[0]->Insert_0;
        lemma_no_empty_rest(remote);
        lemma_transform_merges(local, remote.drop_first(), text);
        lemma_apply_first(remote[0], transform_steps(local, remote.drop_first()), apply_steps(local, text));
    } else if local.len() == 0 || remote.len() == 0 {
        if local.len() > 0 {
            lemma_no_empty_rest(local);
        }
        if remote.len() > 0 {
            lemma_no_empty_rest(remote);
        }
    } else {
        let m = min_len(local[0].consumed(), remote[0].consumed());
        lemma_no_empty_rest(local);
        lemma_no_empty_rest(remote);
        lemma_after_first(local, m);
        lemma_after_first(remote, m);
        let la = after_first(local, m);
        let ra = after_first(remote, m);
        let later = text.skip(m as int);
        lemma_transform_merges(la, ra, later);
        lemma_apply_split(local, m, text);
        let next = transform_steps(la, ra);
        let after = apply_steps(la, later);
        let kept = text.take(m as int);
        match (local[0], remote[0]) {
            (Step::Retain(_), Step::Retain(_)) => {
                lemma_apply_first(Step::Retain(m), next, kept + after);
                assert((kept + after).take(m as int) =~= kept);
                assert((kept + after).skip(m as int) =~= after);
            },
            (Step::Retain(_), Step::Delete(_)) => {
                lemma_apply_first(Step::Delete(m), next, kept + after);
                assert((kept + after).skip(m as int) =~= after);
            },
            _ => {
                assert(Seq::<char>::empty() + after =~= after);
            },
        }
    }
}

/// The text that the inserts at the head of an edit script put in.
spec fn lead(steps: Seq<Step>) -> Seq<char>
    decreases steps.len(),
{
    if steps.len() > 0 && steps[0] is Insert {
        steps[0]->Insert_0 + lead(steps.drop_first())
    } else {
        Seq::<char>::empty()
    }
}

/// The edit script without the inserts at its head.
spec fn strip(steps: Seq<Step>) -> Seq<Step>
    decreases steps.len(),
{
    if steps.len() > 0 && steps[0] is Insert {
        strip(steps.drop_first())
    } else {
        steps
    }
}

proof fn lemma_strip(steps: Seq<Step>)
    requires
        no_empty_steps(steps),
    ensures
        no_empty_steps(strip(steps)),
        strip(steps).len() <= steps.len(),
        strip(steps).len() == 0 || !(strip(steps)[0] is Insert),
        lead(steps) == inserted_at(steps, 0),
        forall|place: nat| place > 0 ==> inserted_at(strip(steps), place) == #[trigger] inserted_at(steps, place),
        inserted_at(strip(steps), 0) == Seq::<char>::empty(),
    decreases steps.len(),
{
    if steps.len() > 0 {
        lemma_no_empty_rest(steps);
        if steps[0] is Insert {
            lemma_strip(steps.drop_first());
            assert forall|place: nat| place > 0 implies inserted_at(strip(steps), place)
                == #[trigger] inserted_at(steps, place) by {
                assert(inserted_at(steps, place) == inserted_at(steps.drop_first(), place));
            }
        }
    }
}

proof fn lemma_merged_lead_first(first: Seq<Step>, second: Seq<Step>, text: Seq<char>)
    ensures
        merged(first, second, text) == lead(first) + merged(strip(first), second, text),
    decreases first.len(),
{
    if first.len() > 0 && first[0] is Insert {
        lemma_merged_lead_first(first.drop_first(), second, text);
        let s = first[0]->Insert_0;
        assert(s + (lead(first.drop_first()) + merged(strip(first), second, text)) =~= (s + lead(
            first.drop_first(),
        )) + merged(strip(first), second, text));
    } else {
        assert(merged(first, second, text) =~= Seq::<char>::empty() + merged(first, second, text));
    }
}

proof fn lemma_merged_lead_second(first: Seq<Step>, second: Seq<Step>, text: Seq<char>)
    requires
        first.len() == 0 || !(first[0] is Insert),
    ensures
        merged(first, second, text) == lead(second) + merged(first, strip(second), text),
    decreases second.len(),
{
    if second.len() > 0 && second[0] is Insert {
        lemma_merged_lead_second(first, second.drop_first(), text);
        let s = second[0]->Insert_0;
        assert(s + (lead(second.drop_first()) + merged(first, strip(second), text)) =~= (s + lead(
            second.drop_first(),
        )) + merged(first, strip(second), text));
    } else {
        assert(merged(first, second, text) =~= Seq::<char>::empty() + merged(first, second, text));
    }
}

/// What a script inserts once part of its first retain or delete is used up.
proof fn lemma_inserted_after_first(steps: Seq<Step>, used: nat, place: nat)
    requires
        steps.len() > 0,
        !(steps[0] is Insert),
        0 < used <= steps[0].consumed(),
    ensures
        inserted_at(after_first(steps, used), place) == inserted_at(steps, place + used),
{
    let n = steps[0].consumed();
    if used < n {
        let rest = after_first(steps, used);
        assert(rest[0] == resized(steps[0], (n - used) as nat));
        assert(rest.drop_first() =~= steps.drop_first());
    }
}

/// The merged text does not depend on which script comes first, where the
/// texts that the two insert at one place commute.
pub proof fn lemma_merged_symmetric(a: Seq<Step>, b: Seq<Step>, text: Seq<char>)
    requires
        no_empty_steps(a),
        no_empty_steps(b),
        inserts_commute(a, b),
    ensures
        merged(a, b, text) == merged(b, a, text),
    decreases a.len() + b.len(),
{
    let sa = strip(a);
    let sb = strip(b);
    lemma_strip(a);
    lemma_strip(b);
    lemma_merged_lead_first(a, b, text);
    lemma_merged_lead_second(sa, b, text);
    lemma_merged_lead_first(b, a, text);
    lemma_merged_lead_second(sb, a, text);
    assert(commute(inserted_at(a, 0), inserted_at(b, 0)));
    if sa.len() > 0 && sb.len() > 0 {
        let m = min_len(sa[0].consumed(), sb[0].consumed());
        lemma_no_empty_rest(sa);
        lemma_no_empty_rest(sb);
        lemma_after_first(sa, m);
        lemma_after_first(sb, m);
        let ra = after_first(sa, m);
        let rb = after_first(sb, m);
        assert forall|place: nat| commute(#[trigger] inserted_at(ra, place), inserted_at(rb, place)) by {
            lemma_inserted_after_first(sa, m, place);
            lemma_inserted_after_first(sb, m, place);
            assert(commute(inserted_at(a, place + m), inserted_at(b, place + m)));
        }
        lemma_merged_symmetric(ra, rb, text.skip(m as int));
    }
    let x = lead(a);
    let y = lead(b);
    let z = merged(sa, sb, text);
    assert(merged(sa, sb, text) == merged(sb, sa, text));
    assert(x + (y + z) =~= (x + y) + z);
    assert(y + (x + z) =~= (y + x) + z);
}

/// Convergence. Take two complete operations made on the same text whose
/// insertions at any one place commute. Applying the first and then the second
/// as transformed against the first gives the same text as applying the second
/// and then the first as transformed against the second.
pub proof fn lemma_transform_converges(a: TextOperation, b: TextOperation, base: Seq<char>)
    requires
        a.wf(),
        b.wf(),
        a.base_length == base.len(),
        b.base_length == base.len(),
        inserts_commute(a.steps(), b.steps()),
    ensures
        apply_steps(transform_steps(a.steps(), b.steps()), apply_steps(a.steps(), base))
            == apply_steps(transform_steps(b.steps(), a.steps()), apply_steps(b.steps(), base)),
{
    lemma_transform_merges(a.steps(), b.steps(), base);
    lemma_transform_merges(b.steps(), a.steps(), base);
    lemma_merged_symmetric(a.steps(), b.steps(), base);
}

} // verus!

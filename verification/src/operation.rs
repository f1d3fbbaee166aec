//! Text operations: edit scripts of retain, insert and delete steps, how they
//! act on a text, and how one is derived from two versions of a text.
//!
//! All lengths count characters.

use vstd::prelude::*;
use crate::text::{to_chars, from_chars};
use crate::error::CollaborationError;

verus! {

/// One step of an edit script, as a mathematical value.
pub enum Step {
    /// Keep the next `n` characters.
    Retain(nat),
    /// Put this text in at the current place.
    Insert(Seq<char>),
    /// Drop the next `n` characters.
    Delete(nat),
}

impl Step {
    /// How many characters of the text before the edit this step uses up.
    pub open spec fn consumed(self) -> nat {
        match self {
            Step::Retain(n) => n,
            Step::Insert(_) => 0,
            Step::Delete(n) => n,
        }
    }

    /// How many characters this step takes away.
    pub open spec fn deleted(self) -> nat {
        match self {
            Step::Delete(n) => n,
            _ => 0,
        }
    }

    /// How many characters this step adds.
    pub open spec fn inserted(self) -> nat {
        match self {
            Step::Insert(s) => s.len(),
            _ => 0,
        }
    }

    /// A step that changes nothing and moves nowhere.
    pub open spec fn is_empty(self) -> bool {
        match self {
            Step::Retain(n) => n == 0,
            Step::Insert(s) => s.len() == 0,
            Step::Delete(n) => n == 0,
        }
    }
}

/// Characters of the old text that the steps account for.
pub open spec fn consumed_len(steps: Seq<Step>) -> nat
    decreases steps.len(),
{
    if steps.len() == 0 {
        0
    } else {
        steps[0].consumed() + consumed_len(steps.drop_first())
    }
}

/// Characters that the steps delete.
pub open spec fn deleted_len(steps: Seq<Step>) -> nat
    decreases steps.len(),
{
    if steps.len() == 0 {
        0
    } else {
        steps[0].deleted() + deleted_len(steps.drop_first())
    }
}

/// Characters that the steps insert.
pub open spec fn inserted_len(steps: Seq<Step>) -> nat
    decreases steps.len(),
{
    if steps.len() == 0 {
        0
    } else {
        steps[0].inserted() + inserted_len(steps.drop_first())
    }
}

/// No step is empty.
pub open spec fn no_empty_steps(steps: Seq<Step>) -> bool {
    forall|i: int| 0 <= i < steps.len() ==> !(#[trigger] steps[i]).is_empty()
}

/// The smaller of two lengths.
pub open spec fn min_len(a: nat, b: nat) -> nat {
    if a <= b {
        a
    } else {
        b
    }
}

/// The text that results from running `steps` over `text` from its start.
///
/// A retain or delete that reaches past the end of `text` stops at the end,
/// and what the steps leave untouched at the end of `text` is kept.
pub open spec fn apply_steps(steps: Seq<Step>, text: Seq<char>) -> Seq<char>
    decreases steps.len(),
{
    if steps.len() == 0 {
        text
    } else {
        let rest = steps.drop_first();
        match steps[0] {
            Step::Retain(n) => {
                let k = min_len(n, text.len()) as int;
                text.take(k) + apply_steps(rest, text.skip(k))
            },
            Step::Insert(s) => s + apply_steps(rest, text),
            Step::Delete(n) => {
                let k = min_len(n, text.len()) as int;
                apply_steps(rest, text.skip(k))
            },
        }
    }
}

/// One component of a text operation.
#[derive(Debug)]
pub enum OpComponent {
    Retain(usize),
    Insert(String),
    Delete(usize),
}

impl View for OpComponent {
    type V = Step;

    open spec fn view(&self) -> Step {
        match self {
            OpComponent::Retain(n) => Step::Retain(*n as nat),
            OpComponent::Insert(s) => Step::Insert(s@),
            OpComponent::Delete(n) => Step::Delete(*n as nat),
        }
    }
}

impl Clone for OpComponent {
    fn clone(&self) -> (c: Self)
        ensures
            c@ == self@,
    {
        match self {
            OpComponent::Retain(n) => OpComponent::Retain(*n),
            OpComponent::Insert(s) => OpComponent::Insert(s.clone()),
            OpComponent::Delete(n) => OpComponent::Delete(*n),
        }
    }
}

/// An edit of a text of `base_length` characters into one of `target_length`.
#[derive(Debug)]
pub struct TextOperation {
    pub ops: Vec<OpComponent>,
    pub base_length: usize,
    pub target_length: usize,
}

/// The steps that a sequence of components stands for.
pub open spec fn steps_of(ops: Seq<OpComponent>) -> Seq<Step> {
    Seq::new(ops.len(), |i: int| ops[i]@)
}

/// A text operation as a mathematical value.
pub struct OperationView {
    pub steps: Seq<Step>,
    pub base_length: nat,
    pub target_length: nat,
}

impl OperationView {
    /// The operation is complete: no step is empty, the retains and deletes
    /// account for the whole base text, and the target length is the base
    /// length less what is deleted plus what is inserted.
    pub open spec fn wf(self) -> bool {
        &&& no_empty_steps(self.steps)
        &&& consumed_len(self.steps) == self.base_length
        &&& self.target_length == self.base_length - deleted_len(self.steps) + inserted_len(
            self.steps,
        )
    }
}

impl View for TextOperation {
    type V = OperationView;

    open spec fn view(&self) -> OperationView {
        OperationView {
            steps: steps_of(self.ops@),
            base_length: self.base_length as nat,
            target_length: self.target_length as nat,
        }
    }
}

impl TextOperation {
    /// The edit script of this operation.
    pub open spec fn steps(&self) -> Seq<Step> {
        steps_of(self.ops@)
    }

    /// The operation is complete: no step is empty, the retains and deletes
    /// account for the whole base text, and the target length is the base
    /// length less what is deleted plus what is inserted.
    pub open spec fn wf(&self) -> bool {
        self@.wf()
    }
}

/// Adding a step at the end adds its share to each of the three sums.
pub proof fn lemma_lengths_push(steps: Seq<Step>, step: Step)
    ensures
        consumed_len(steps.push(step)) == consumed_len(steps) + step.consumed(),
        deleted_len(steps.push(step)) == deleted_len(steps) + step.deleted(),
        inserted_len(steps.push(step)) == inserted_len(steps) + step.inserted(),
    decreases steps.len(),
{
    if steps.len() == 0 {
        assert(steps.push(step).drop_first() =~= steps);
    } else {
        assert(steps.push(step).drop_first() =~= steps.drop_first().push(step));
        lemma_lengths_push(steps.drop_first(), step);
    }
}

/// The steps of a component list that grew by one component.
pub proof fn lemma_steps_push(ops: Seq<OpComponent>, c: OpComponent)
    ensures
        steps_of(ops.push(c)) == steps_of(ops).push(c@),
{
    assert(steps_of(ops.push(c)) =~= steps_of(ops).push(c@));
}

impl TextOperation {
    /// An operation on a text of `base_length` characters that has no steps yet.
    pub fn new(base_length: usize) -> (op: Self)
        ensures
            op.ops@.len() == 0,
            op.steps() == Seq::<Step>::empty(),
            op.base_length == base_length,
            op.target_length == base_length,
    {
        let op = TextOperation { ops: Vec::new(), base_length, target_length: base_length };
        assert(op.steps() =~= Seq::<Step>::empty());
        op
    }

    /// Keep the next `count` characters. Nothing is added for a count of zero.
    pub fn retain(&mut self, count: usize) -> (out: &mut Self)
        ensures
            out.steps() == if count > 0 {
                old(self).steps().push(Step::Retain(count as nat))
            } else {
                old(self).steps()
            },
            out.base_length == old(self).base_length,
            out.target_length == old(self).target_length,
            *final(self) == *final(out),
    {
        if count > 0 {
            proof {
                lemma_steps_push(self.ops@, OpComponent::Retain(count));
            }
            self.ops.push(OpComponent::Retain(count));
        }
        self
    }
    /// Put `text` in at the current place. Nothing is added for an empty text.
    pub fn insert(&mut self, text: &str) -> (out: &mut Self)
        requires
            old(self).target_length + text@.len() <= usize::MAX,
        ensures
            out.steps() == if text@.len() > 0 {
                old(self).steps().push(Step::Insert(text@))
            } else {
                old(self).steps()
            },
            out.base_length == old(self).base_length,
            out.target_length == old(self).target_length + text@.len(),
            *final(self) == *final(out),
    {
        let added: usize = text.unicode_len();
        if added > 0 {
            let owned = text.to_owned();
            proof {
                lemma_steps_push(self.ops@, OpComponent::Insert(owned));
            }
            self.ops.push(OpComponent::Insert(owned));
            self.target_length = self.target_length + added;
        }
        self
    }

    /// Drop the next `count` characters. Nothing is added for a count of zero.
    /// The target length never goes below zero.
    pub fn delete(&mut self, count: usize) -> (out: &mut Self)
        ensures
            out.steps() == if count > 0 {
                old(self).steps().push(Step::Delete(count as nat))
            } else {
                old(self).steps()
            },
            out.base_length == old(self).base_length,
            out.target_length == if old(self).target_length >= count {
                old(self).target_length - count
            } else {
                0
            },
            *final(self) == *final(out),
    {
        if count > 0 {
            proof {
                lemma_steps_push(self.ops@, OpComponent::Delete(count));
            }
            self.ops.push(OpComponent::Delete(count));
            self.target_length = if self.target_length >= count {
                self.target_length - count
            } else {
                0
            };
        }
        self
    }
}

/// How many characters two texts share at their start.
pub open spec fn common_prefix_len(a: Seq<char>, b: Seq<char>) -> nat
    decreases a.len(),
{
    if a.len() > 0 && b.len() > 0 && a[0] == b[0] {
        1 + common_prefix_len(a.drop_first(), b.drop_first())
    } else {
        0
    }
}

/// How many characters two texts share at their end.
pub open spec fn common_suffix_len(a: Seq<char>, b: Seq<char>) -> nat
    decreases a.len(),
{
    if a.len() > 0 && b.len() > 0 && a.last() == b.last() {
        1 + common_suffix_len(a.drop_last(), b.drop_last())
    } else {
        0
    }
}

/// The step alone, or nothing where the step is empty.
pub open spec fn optional(step: Step) -> Seq<Step> {
    if step.is_empty() {
        Seq::<Step>::empty()
    } else {
        seq![step]
    }
}

/// Length of the part of `old_text` that a change to `new_text` replaces:
/// what lies between the common start and the common end.
pub open spec fn changed_old_len(old_text: Seq<char>, new_text: Seq<char>) -> nat {
    let p = common_prefix_len(old_text, new_text);
    let q = common_suffix_len(old_text.skip(p as int), new_text.skip(p as int));
    (old_text.len() - p - q) as nat
}

/// The part of `new_text` that a change from `old_text` puts in.
pub open spec fn changed_new_text(old_text: Seq<char>, new_text: Seq<char>) -> Seq<char> {
    let p = common_prefix_len(old_text, new_text);
    let q = common_suffix_len(old_text.skip(p as int), new_text.skip(p as int));
    new_text.subrange(p as int, new_text.len() - q)
}

/// The edit script that turns `old_text` into `new_text` with one delete and
/// one insert: keep the longest common start, delete what differs in the old
/// text, insert what differs in the new one, keep the longest common end of
/// what follows the common start. Empty steps are left out.
pub open spec fn diff_steps(old_text: Seq<char>, new_text: Seq<char>) -> Seq<Step> {
    let p = common_prefix_len(old_text, new_text);
    let q = common_suffix_len(old_text.skip(p as int), new_text.skip(p as int));
    optional(Step::Retain(p)) + optional(Step::Delete(changed_old_len(old_text, new_text)))
        + optional(Step::Insert(changed_new_text(old_text, new_text))) + optional(
        Step::Retain(q),
    )
}

/// The common start is a start of both texts, and the longest one.
pub proof fn lemma_common_prefix(a: Seq<char>, b: Seq<char>)
    ensures
        common_prefix_len(a, b) <= a.len(),
        common_prefix_len(a, b) <= b.len(),
        a.take(common_prefix_len(a, b) as int) == b.take(common_prefix_len(a, b) as int),
        common_prefix_len(a, b) < a.len() && common_prefix_len(a, b) < b.len() ==> a[common_prefix_len(
            a,
            b,
        ) as int] != b[common_prefix_len(a, b) as int],
    decreases a.len(),
{
    if a.len() > 0 && b.len() > 0 && a[0] == b[0] {
        lemma_common_prefix(a.drop_first(), b.drop_first());
        let p = common_prefix_len(a.drop_first(), b.drop_first()) as int;
        let x = a.take(p + 1);
        let y = b.take(p + 1);
        assert forall|i: int| 0 <= i < p + 1 implies #[trigger] x[i] == y[i] by {
            if i > 0 {
                assert(a.drop_first().take(p)[i - 1] == b.drop_first().take(p)[i - 1]);
            }
        }
        assert(x =~= y);
    } else {
        assert(a.take(0) =~= b.take(0));
    }
}

/// A length up to which two texts agree, and at which they part or one of
/// them ends, is the length of their common start.
pub proof fn lemma_common_prefix_unique(a: Seq<char>, b: Seq<char>, k: nat)
    requires
        k <= a.len(),
        k <= b.len(),
        forall|i: int| 0 <= i < k ==> a[i] == b[i],
        k == a.len() || k == b.len() || a[k as int] != b[k as int],
    ensures
        common_prefix_len(a, b) == k,
    decreases k,
{
    if k > 0 {
        assert(a[0] == b[0]);
        lemma_common_prefix_unique(a.drop_first(), b.drop_first(), (k - 1) as nat);
    }
}

/// The common end is an end of both texts, and the longest one.
pub proof fn lemma_common_suffix(a: Seq<char>, b: Seq<char>)
    ensures
        common_suffix_len(a, b) <= a.len(),
        common_suffix_len(a, b) <= b.len(),
        a.skip(a.len() - common_suffix_len(a, b)) == b.skip(b.len() - common_suffix_len(a, b)),
    decreases a.len(),
{
    if a.len() > 0 && b.len() > 0 && a.last() == b.last() {
        lemma_common_suffix(a.drop_last(), b.drop_last());
        let q = common_suffix_len(a.drop_last(), b.drop_last()) as int;
        let x = a.skip(a.len() - (q + 1));
        let y = b.skip(b.len() - (q + 1));
        assert forall|i: int| 0 <= i < q + 1 implies #[trigger] x[i] == y[i] by {
            if i < q {
                assert(a.drop_last().skip(a.len() - 1 - q)[i] == b.drop_last().skip(
                    b.len() - 1 - q,
                )[i]);
            }
        }
        assert(x =~= y);
    } else {
        assert(a.skip(a.len() as int) =~= b.skip(b.len() as int));
    }
}

/// A length over which two texts agree at their end, and before which they
/// part or one of them ends, is the length of their common end.
pub proof fn lemma_common_suffix_unique(a: Seq<char>, b: Seq<char>, k: nat)
    requires
        k <= a.len(),
        k <= b.len(),
        forall|i: int| 0 <= i < k ==> #[trigger] a[a.len() - 1 - i] == b[b.len() - 1 - i],
        k == a.len() || k == b.len() || a[a.len() - 1 - k] != b[b.len() - 1 - k],
    ensures
        common_suffix_len(a, b) == k,
    decreases k,
{
    if k > 0 {
        assert(a[a.len() - 1 - 0] == b[b.len() - 1 - 0]);
        let a1 = a.drop_last();
        let b1 = b.drop_last();
        assert forall|i: int| 0 <= i < k - 1 implies #[trigger] a1[a1.len() - 1 - i] == b1[b1.len() - 1 - i] by {
            assert(a[a.len() - 1 - (i + 1)] == b[b.len() - 1 - (i + 1)]);
        }
        lemma_common_suffix_unique(a1, b1, (k - 1) as nat);
    }
}

/// The three sums of two edit scripts, one after the other.
pub proof fn lemma_lengths_concat(s1: Seq<Step>, s2: Seq<Step>)
    ensures
        consumed_len(s1 + s2) == consumed_len(s1) + consumed_len(s2),
        deleted_len(s1 + s2) == deleted_len(s1) + deleted_len(s2),
        inserted_len(s1 + s2) == inserted_len(s1) + inserted_len(s2),
    decreases s2.len(),
{
    if s2.len() == 0 {
        assert(s1 + s2 =~= s1);
    } else {
        let last = s2.last();
        assert(s1 + s2 =~= (s1 + s2.drop_last()).push(last));
        assert(s2 =~= s2.drop_last().push(last));
        lemma_lengths_concat(s1, s2.drop_last());
        lemma_lengths_push(s1 + s2.drop_last(), last);
        lemma_lengths_push(s2.drop_last(), last);
    }
}

/// An empty step at the head of an edit script changes nothing.
pub proof fn lemma_apply_optional(step: Step, rest: Seq<Step>, text: Seq<char>)
    ensures
        apply_steps(optional(step) + rest, text) == apply_steps(seq![step] + rest, text),
{
    if step.is_empty() {
        assert(optional(step) + rest =~= rest);
        assert((seq![step] + rest).drop_first() =~= rest);
        assert(text.take(0) =~= Seq::<char>::empty());
        assert(text.skip(0) =~= text);
        match step {
            Step::Retain(n) => {
                assert(text.take(0) + apply_steps(rest, text) =~= apply_steps(rest, text));
            },
            Step::Insert(s) => {
                assert(s + apply_steps(rest, text) =~= apply_steps(rest, text));
            },
            Step::Delete(n) => {},
        }
    }
}

/// What the first step of an edit script does to a text.
pub proof fn lemma_apply_first(step: Step, rest: Seq<Step>, text: Seq<char>)
    ensures
        apply_steps(seq![step] + rest, text) == match step {
            Step::Retain(n) => text.take(min_len(n, text.len()) as int) + apply_steps(
                rest,
                text.skip(min_len(n, text.len()) as int),
            ),
            Step::Insert(s) => s + apply_steps(rest, text),
            Step::Delete(n) => apply_steps(rest, text.skip(min_len(n, text.len()) as int)),
        },
{
    assert((seq![step] + rest).drop_first() =~= rest);
    assert((seq![step] + rest)[0] == step);
}

/// Applying the change from `old_text` to `new_text` to `old_text` gives
/// `new_text`.
pub proof fn lemma_diff_round_trip(old_text: Seq<char>, new_text: Seq<char>)
    ensures
        apply_steps(diff_steps(old_text, new_text), old_text) == new_text,
{
    let p = common_prefix_len(old_text, new_text);
    let old_tail = old_text.skip(p as int);
    let new_tail = new_text.skip(p as int);
    let q = common_suffix_len(old_tail, new_tail);
    let d = changed_old_len(old_text, new_text);
    let mid = changed_new_text(old_text, new_text);
    lemma_common_prefix(old_text, new_text);
    lemma_common_suffix(old_tail, new_tail);
    let none = Seq::<Step>::empty();
    let r4 = optional(Step::Retain(q)) + none;
    let r3 = optional(Step::Insert(mid)) + r4;
    let r2 = optional(Step::Delete(d)) + r3;
    assert(diff_steps(old_text, new_text) =~= optional(Step::Retain(p)) + r2);
    let end = old_tail.skip(d as int);
    assert(end =~= old_tail.skip(old_tail.len() - q));
    assert(end == new_tail.skip(new_tail.len() - q));
    assert(end.len() == q);

    lemma_apply_optional(Step::Retain(q), none, end);
    lemma_apply_first(Step::Retain(q), none, end);
    assert(end.skip(q as int) =~= Seq::<char>::empty());
    assert(end.take(q as int) =~= end);
    assert(apply_steps(none, end.skip(q as int)) == end.skip(q as int));
    assert(apply_steps(r4, end) =~= end);

    lemma_apply_optional(Step::Insert(mid), r4, end);
    lemma_apply_first(Step::Insert(mid), r4, end);
    assert(apply_steps(r3, end) == mid + end);

    lemma_apply_optional(Step::Delete(d), r3, old_tail);
    lemma_apply_first(Step::Delete(d), r3, old_tail);
    assert(apply_steps(r2, old_tail) == mid + end);

    lemma_apply_optional(Step::Retain(p), r2, old_text);
    lemma_apply_first(Step::Retain(p), r2, old_text);
    assert(apply_steps(diff_steps(old_text, new_text), old_text) == old_text.take(p as int) + (mid
        + end));
    assert(new_text.take(p as int) + (mid + new_tail.skip(new_tail.len() - q)) =~= new_text);
}

/// The change from a text to itself keeps the whole text, deletes and
/// inserts nothing, and applied to the text gives it back.
pub proof fn lemma_diff_identity(text: Seq<char>)
    ensures
        diff_steps(text, text) == optional(Step::Retain(text.len())),
        forall|i: int|
            0 <= i < diff_steps(text, text).len() ==> (#[trigger] diff_steps(text, text)[i])
                is Retain,
        deleted_len(diff_steps(text, text)) == 0,
        inserted_len(diff_steps(text, text)) == 0,
        apply_steps(diff_steps(text, text), text) == text,
{
    lemma_common_prefix_unique(text, text, text.len());
    let rest = text.skip(text.len() as int);
    assert(rest =~= Seq::<char>::empty());
    assert(common_suffix_len(rest, rest) == 0);
    assert(changed_new_text(text, text) =~= Seq::<char>::empty());
    assert(diff_steps(text, text) =~= optional(Step::Retain(text.len())));
    lemma_diff_round_trip(text, text);
    lemma_optional_lengths(Step::Retain(text.len()));
}

/// The change from `old_text` to `new_text` is a complete operation from the
/// length of the one to the length of the other.
pub proof fn lemma_diff_lengths(old_text: Seq<char>, new_text: Seq<char>)
    ensures
        no_empty_steps(diff_steps(old_text, new_text)),
        consumed_len(diff_steps(old_text, new_text)) == old_text.len(),
        deleted_len(diff_steps(old_text, new_text)) == changed_old_len(old_text, new_text),
        inserted_len(diff_steps(old_text, new_text)) == changed_new_text(
            old_text,
            new_text,
        ).len(),
        old_text.len() - changed_old_len(old_text, new_text) + changed_new_text(
            old_text,
            new_text,
        ).len() == new_text.len(),
{
    let p = common_prefix_len(old_text, new_text);
    let old_tail = old_text.skip(p as int);
    let new_tail = new_text.skip(p as int);
    let q = common_suffix_len(old_tail, new_tail);
    let d = changed_old_len(old_text, new_text);
    let mid = changed_new_text(old_text, new_text);
    lemma_common_prefix(old_text, new_text);
    lemma_common_suffix(old_tail, new_tail);
    let o1 = optional(Step::Retain(p));
    let o2 = optional(Step::Delete(d));
    let o3 = optional(Step::Insert(mid));
    let o4 = optional(Step::Retain(q));
    lemma_lengths_concat(o1, o2);
    lemma_lengths_concat(o1 + o2, o3);
    lemma_lengths_concat(o1 + o2 + o3, o4);
    lemma_optional_lengths(Step::Retain(p));
    lemma_optional_lengths(Step::Delete(d));
    lemma_optional_lengths(Step::Insert(mid));
    lemma_optional_lengths(Step::Retain(q));
}

/// The three sums of a step that is left out where it is empty.
pub proof fn lemma_optional_lengths(step: Step)
    ensures
        consumed_len(optional(step)) == step.consumed(),
        deleted_len(optional(step)) == step.deleted(),
        inserted_len(optional(step)) == step.inserted(),
        no_empty_steps(optional(step)),
{
    if !step.is_empty() {
        assert(optional(step) =~= Seq::<Step>::empty().push(step));
        lemma_lengths_push(Seq::<Step>::empty(), step);
    }
}

impl Clone for TextOperation {
    fn clone(&self) -> (c: Self)
        ensures
            c@ == self@,
    {
        let mut ops: Vec<OpComponent> = Vec::new();
        let mut i: usize = 0;
        while i < self.ops.len()
            invariant
                i <= self.ops.len(),
                ops.len() == i,
                forall|j: int| 0 <= j < i ==> (#[trigger] ops[j])@ == self.ops[j]@,
            decreases self.ops.len() - i,
        {
            ops.push(self.ops[i].clone());
            i = i + 1;
        }
        let c = TextOperation { ops, base_length: self.base_length, target_length: self.target_length };
        assert(c.steps() =~= self.steps());
        c
    }
}

/// The length of the common start of two texts.
fn common_prefix(a: &Vec<char>, b: &Vec<char>) -> (p: usize)
    ensures
        p == common_prefix_len(a@, b@),
{
    let mut p: usize = 0;
    while p < a.len() && p < b.len() && a[p] == b[p]
        invariant
            p <= a.len(),
            p <= b.len(),
            forall|i: int| 0 <= i < p ==> a@[i] == b@[i],
        decreases a.len() - p,
    {
        p = p + 1;
    }
    proof {
        lemma_common_prefix_unique(a@, b@, p as nat);
    }
    p
}

/// The length of the common end of what follows the first `from` characters
/// of two texts.
fn common_suffix(a: &Vec<char>, b: &Vec<char>, from: usize) -> (q: usize)
    requires
        from <= a.len(),
        from <= b.len(),
    ensures
        q == common_suffix_len(a@.skip(from as int), b@.skip(from as int)),
{
    let mut q: usize = 0;
    while q < a.len() - from && q < b.len() - from && a[a.len() - 1 - q] == b[b.len() - 1 - q]
        invariant
            from <= a.len(),
            from <= b.len(),
            q <= a.len() - from,
            q <= b.len() - from,
            forall|i: int| 0 <= i < q ==> #[trigger] a@[a.len() - 1 - i] == b@[b.len() - 1 - i],
        decreases a.len() - q,
    {
        q = q + 1;
    }
    proof {
        let x = a@.skip(from as int);
        let y = b@.skip(from as int);
        assert forall|i: int| 0 <= i < q implies #[trigger] x[x.len() - 1 - i] == y[y.len() - 1
            - i] by {
            assert(a@[a.len() - 1 - i] == b@[b.len() - 1 - i]);
        }
        lemma_common_suffix_unique(x, y, q as nat);
    }
    q
}

impl TextOperation {
    /// The operation that turns `old_text` into `new_text` by one delete and
    /// one insert between their longest common start and end. It never fails,
    /// and it does not depend on `cursor_pos`, the caret's place, which callers
    /// that track one may hand over.
    pub fn from_text_change(old_text: &str, new_text: &str, cursor_pos: usize) -> (res: Result<
        Self,
        CollaborationError,
    >)
        ensures
            res is Ok,
            res->Ok_0.steps() == diff_steps(old_text@, new_text@),
            res->Ok_0.base_length == old_text@.len(),
            res->Ok_0.target_length == new_text@.len(),
            res->Ok_0.wf(),
            apply_steps(res->Ok_0.steps(), old_text@) == new_text@,
    {
        let old_chars = to_chars(old_text);
        let new_chars = to_chars(new_text);
        let p = common_prefix(&old_chars, &new_chars);
        proof {
            lemma_common_prefix(old_text@, new_text@);
        }
        let q = common_suffix(&old_chars, &new_chars, p);
        proof {
            lemma_common_suffix(old_text@.skip(p as int), new_text@.skip(p as int));
            lemma_diff_lengths(old_text@, new_text@);
            lemma_diff_round_trip(old_text@, new_text@);
        }
        let inserted = from_chars(&new_chars, p, new_chars.len() - q);
        let mut operation = TextOperation::new(old_chars.len());
        operation.retain(p);
        operation.delete(old_chars.len() - q - p);
        operation.insert(inserted.as_str());
        operation.retain(q);
        assert(operation.steps() =~= diff_steps(old_text@, new_text@));
        Ok(operation)
    }

    /// The text that this operation makes of `content`. Steps that reach past
    /// the end of `content` stop there, and what they leave untouched at its
    /// end is kept.
    pub fn apply(&self, content: &str) -> (result: String)
        ensures
            result@ == apply_steps(self.steps(), content@),
    {
        let len: usize = content.unicode_len();
        let mut result = String::new();
        let mut position: usize = 0;
        let mut i: usize = 0;
        assert(self.steps().skip(0) =~= self.steps());
        assert(content@.skip(0) =~= content@);
        assert(result@ + apply_steps(self.steps(), content@) =~= apply_steps(
            self.steps(),
            content@,
        ));
        while i < self.ops.len()
            invariant
                i <= self.ops.len(),
                position <= len,
                len == content@.len(),
                result@ + apply_steps(self.steps().skip(i as int), content@.skip(position as int))
                    == apply_steps(self.steps(), content@),
            decreases self.ops.len() - i,
        {
            let ghost rest_text = content@.skip(position as int);
            let ghost before = result@;
            proof {
                assert(self.steps().skip(i as int)[0] == self.ops[i as int]@);
                assert(self.steps().skip(i as int).drop_first() =~= self.steps().skip(i + 1));
            }
            match &self.ops[i] {
                OpComponent::Retain(count) => {
                    let end: usize = if *count <= len - position {
                        position + *count
                    } else {
                        len
                    };
                    result.append(content.substring_char(position, end));
                    proof {
                        let k = min_len(*count as nat, rest_text.len()) as int;
                        assert(k == end - position);
                        assert(content@.subrange(position as int, end as int) =~= rest_text.take(k));
                        assert(rest_text.skip(k) =~= content@.skip(end as int));
                        assert(result@ + apply_steps(
                            self.steps().skip(i + 1),
                            content@.skip(end as int),
                        ) =~= before + (rest_text.take(k) + apply_steps(
                            self.steps().skip(i + 1),
                            rest_text.skip(k),
                        )));
                    }
                    position = end;
                },
                OpComponent::Insert(text) => {
                    result.append(text.as_str());
                    proof {
                        assert(result@ + apply_steps(self.steps().skip(i + 1), rest_text) =~= before
                            + (text@ + apply_steps(self.steps().skip(i + 1), rest_text)));
                    }
                },
                OpComponent::Delete(count) => {
                    let end: usize = if *count <= len - position {
                        position + *count
                    } else {
                        len
                    };
                    proof {
                        let k = min_len(*count as nat, rest_text.len()) as int;
                        assert(rest_text.skip(k) =~= content@.skip(end as int));
                    }
                    position = end;
                },
            }
            i = i + 1;
        }
        result.append(content.substring_char(position, len));
        proof {
            assert(self.steps().skip(i as int) =~= Seq::<Step>::empty());
            assert(content@.subrange(position as int, len as int) =~= content@.skip(
                position as int,
            ));
        }
        result
    }
}

/// What is deleted is part of what is consumed.
pub proof fn lemma_deleted_le_consumed(steps: Seq<Step>)
    ensures
        deleted_len(steps) <= consumed_len(steps),
    decreases steps.len(),
{
    if steps.len() > 0 {
        lemma_deleted_le_consumed(steps.drop_first());
    }
}

/// The sums over the first `count` steps are no more than the sums over all.
pub proof fn lemma_lengths_take(steps: Seq<Step>, count: int)
    requires
        0 <= count <= steps.len(),
    ensures
        consumed_len(steps.take(count)) <= consumed_len(steps),
        deleted_len(steps.take(count)) <= deleted_len(steps),
        inserted_len(steps.take(count)) <= inserted_len(steps),
{
    assert(steps =~= steps.take(count) + steps.skip(count));
    lemma_lengths_concat(steps.take(count), steps.skip(count));
}

impl TextOperation {
    /// Whether the operation is complete, as `wf` says.
    pub fn is_well_formed(&self) -> (ok: bool)
        ensures
            ok == self.wf(),
    {
        let ghost steps = self.steps();
        let mut consumed: usize = 0;
        let mut deleted: usize = 0;
        let mut inserted: usize = 0;
        let mut i: usize = 0;
        assert(steps.take(0) =~= Seq::<Step>::empty());
        while i < self.ops.len()
            invariant
                i <= self.ops.len(),
                steps == self.steps(),
                no_empty_steps(steps.take(i as int)),
                consumed == consumed_len(steps.take(i as int)),
                deleted == deleted_len(steps.take(i as int)),
                inserted == inserted_len(steps.take(i as int)),
                deleted <= consumed,
            decreases self.ops.len() - i,
        {
            proof {
                assert(steps.take(i + 1) =~= steps.take(i as int).push(steps[i as int]));
                lemma_lengths_push(steps.take(i as int), steps[i as int]);
                lemma_lengths_take(steps, i + 1);
                lemma_deleted_le_consumed(steps);
                assert(steps[i as int] == self.ops[i as int]@);
            }
            match &self.ops[i] {
                OpComponent::Retain(count) => {
                    if *count == 0 || *count > usize::MAX - consumed {
                        return false;
                    }
                    consumed = consumed + *count;
                },
                OpComponent::Insert(text) => {
                    let added: usize = text.as_str().unicode_len();
                    if added == 0 || added > usize::MAX - inserted {
                        return false;
                    }
                    inserted = inserted + added;
                },
                OpComponent::Delete(count) => {
                    if *count == 0 || *count > usize::MAX - consumed {
                        return false;
                    }
                    consumed = consumed + *count;
                    deleted = deleted + *count;
                },
            }
            i = i + 1;
        }
        assert(steps.take(i as int) =~= steps);
        if consumed != self.base_length {
            return false;
        }
        let kept: usize = self.base_length - deleted;
        self.target_length >= kept && self.target_length - kept == inserted
    }
}

} // verus!


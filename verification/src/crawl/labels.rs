//! The labels of stored chunks.
use crate::names::NameSet;
use crate::storage::rows;
use crate::storage::rows::{ChunkRow, ChunkRowView};
use crate::text;
use vstd::prelude::*;

verus! {

/// Labels with one more, unless it is among them.
pub open spec fn with_label(labels: Seq<Seq<char>>, label_id: Seq<char>) -> Seq<Seq<char>> {
    if labels.contains(label_id) {
        labels
    } else {
        labels.push(label_id)
    }
}

/// Labels without one of them.
pub open spec fn without_label(labels: Seq<Seq<char>>, label_id: Seq<char>) -> Seq<Seq<char>> {
    labels.filter(|l: Seq<char>| l != label_id)
}

/// Whether a label is among others.
pub fn has_label(labels: &Vec<String>, label_id: &str) -> (r: bool)
    ensures
        r == text::views(labels@).contains(label_id@),
{
    let n: usize = labels.len();
    let ghost all = text::views(labels@);
    for i in 0..n
        invariant
            n == labels@.len(),
            all == text::views(labels@),
            forall|j: int| 0 <= j < i ==> #[trigger] all[j] != label_id@,
    {
        assert(all[i as int] == labels@[i as int]@);
        if text::same(labels[i].as_str(), label_id) {
            return true;
        }
    }
    false
}

/// Adds a label, unless it is there.
pub fn add_label(labels: &Vec<String>, label_id: &str) -> (r: Vec<String>)
    ensures
        text::views(r@) == with_label(text::views(labels@), label_id@),
{
    let n: usize = labels.len();
    let mut out = text::copy_strings(labels, 0, n);
    assert(text::views(out@) =~= text::views(labels@));
    if !has_label(labels, label_id) {
        let ghost before = out@;
        out.push(label_id.to_owned());
        assert(text::views(out@) =~= text::views(before).push(label_id@));
    }
    out
}

/// Removes a label.
pub fn remove_label(labels: &Vec<String>, label_id: &str) -> (r: Vec<String>)
    ensures
        text::views(r@) == without_label(text::views(labels@), label_id@),
{
    let n: usize = labels.len();
    let mut out: Vec<String> = Vec::new();
    let ghost all = text::views(labels@);
    proof {
        reveal(Seq::filter);
        assert(text::views(out@) =~= without_label(all.take(0), label_id@));
    }
    for i in 0..n
        invariant
            n == labels@.len(),
            all == text::views(labels@),
            text::views(out@) == without_label(all.take(i as int), label_id@),
    {
        let ghost before = out@;
        proof {
            reveal(Seq::filter);
            assert(all.take(i + 1).drop_last() =~= all.take(i as int));
            assert(all[i as int] == labels@[i as int]@);
        }
        if !text::same(labels[i].as_str(), label_id) {
            out.push(labels[i].clone());
            assert(text::views(out@) =~= text::views(before).push(all[i as int]));
        }
    }
    assert(all.take(n as int) =~= all);
    out
}

/// New labels for a chunk, by the chunk's identifier.
pub open spec fn label_update_views(updates: Seq<(String, Vec<String>)>) -> Seq<
    (Seq<char>, Seq<Seq<char>>),
> {
    updates.map_values(|u: (String, Vec<String>)| (u.0@, text::views(u.1@)))
}

/// The labels that the chunks of a file get when one is added.
pub open spec fn added_to(rows: Seq<ChunkRowView>, label_id: Seq<char>) -> Seq<
    (Seq<char>, Seq<Seq<char>>),
> {
    rows.map_values(
        |r: ChunkRowView| (r.point_id, with_label(r.active_label_ids, label_id)),
    )
}

/// The labels that the chunks of a file get when one is added to the file.
pub fn label_updates(chunks: &Vec<ChunkRow>, label_id: &str) -> (r: Vec<(String, Vec<String>)>)
    ensures
        label_update_views(r@) == added_to(rows::row_views(chunks@), label_id@),
{
    let n: usize = chunks.len();
    let mut out: Vec<(String, Vec<String>)> = Vec::new();
    let ghost all = rows::row_views(chunks@);
    for i in 0..n
        invariant
            n == chunks@.len(),
            all == rows::row_views(chunks@),
            label_update_views(out@) =~= added_to(all.take(i as int), label_id@),
    {
        let ghost before = out@;
        assert(all[i as int] == chunks@[i as int]@);
        out.push(
            (chunks[i].point_id.clone(), add_label(&chunks[i].active_label_ids, label_id)),
        );
        assert(all.take(i + 1) =~= all.take(i as int).push(all[i as int]));
        proof {
            let entry = (
                all[i as int].point_id,
                with_label(all[i as int].active_label_ids, label_id@),
            );
            assert(label_update_views(out@) =~= label_update_views(before).push(entry));
            assert(added_to(all.take(i + 1), label_id@) =~= added_to(
                all.take(i as int),
                label_id@,
            ).push(entry));
        }
    }
    assert(all.take(n as int) =~= all);
    out
}

/// What is done to a stored chunk when a label leaves it.
#[derive(Debug)]
pub enum CleanupStep {
    /// It is deleted, because the label was its last.
    Delete(String),
    /// It keeps these labels.
    Relabel(String, Vec<String>),
}

/// What a [`CleanupStep`] stands for.
pub enum CleanupStepView {
    Delete(Seq<char>),
    Relabel(Seq<char>, Seq<Seq<char>>),
}

impl View for CleanupStep {
    type V = CleanupStepView;

    open spec fn view(&self) -> CleanupStepView {
        match self {
            CleanupStep::Delete(id) => CleanupStepView::Delete(id@),
            CleanupStep::Relabel(id, labels) => CleanupStepView::Relabel(
                id@,
                text::views(labels@),
            ),
        }
    }
}

/// What steps stand for.
pub open spec fn step_views(steps: Seq<CleanupStep>) -> Seq<CleanupStepView> {
    steps.map_values(|s: CleanupStep| s@)
}

/// What is done to a chunk that a label leaves.
pub open spec fn step_for(row: ChunkRowView, label_id: Seq<char>) -> CleanupStepView {
    let labels = without_label(row.active_label_ids, label_id);
    if labels.len() == 0 {
        CleanupStepView::Delete(row.point_id)
    } else {
        CleanupStepView::Relabel(row.point_id, labels)
    }
}

/// What is done to the chunks of a label, in their order. Chunks of the files in `kept` stay
/// as they are.
pub open spec fn cleanup(
    rows: Seq<ChunkRowView>,
    label_id: Seq<char>,
    kept: Set<Seq<char>>,
) -> Seq<CleanupStepView> {
    rows.filter(|r: ChunkRowView| !kept.contains(r.file_id)).map_values(
        |r: ChunkRowView| step_for(r, label_id),
    )
}

fn make_step(row: &ChunkRow, label_id: &str) -> (r: CleanupStep)
    ensures
        r@ == step_for(row@, label_id@),
{
    let labels = remove_label(&row.active_label_ids, label_id);
    assert(text::views(labels@).len() == labels@.len());
    if labels.len() == 0 {
        CleanupStep::Delete(row.point_id.clone())
    } else {
        CleanupStep::Relabel(row.point_id.clone(), labels)
    }
}

/// Plans how a label leaves the chunks of the files that no longer have it. The number of
/// steps is the number of chunks that are dealt with.
pub fn plan_cleanup(chunks: &Vec<ChunkRow>, label_id: &str, kept: &NameSet) -> (r: Vec<CleanupStep>)
    ensures
        step_views(r@) == cleanup(rows::row_views(chunks@), label_id@, kept@),
{
    let n: usize = chunks.len();
    let mut out: Vec<CleanupStep> = Vec::new();
    let ghost all = rows::row_views(chunks@);
    let ghost pred = |r: ChunkRowView| !kept@.contains(r.file_id);
    let ghost step = |r: ChunkRowView| step_for(r, label_id@);
    proof {
        reveal(Seq::filter);
        assert(step_views(out@) =~= all.take(0).filter(pred).map_values(step));
    }
    for i in 0..n
        invariant
            n == chunks@.len(),
            all == rows::row_views(chunks@),
            pred == (|r: ChunkRowView| !kept@.contains(r.file_id)),
            step == (|r: ChunkRowView| step_for(r, label_id@)),
            step_views(out@) == all.take(i as int).filter(pred).map_values(step),
    {
        let ghost before = out@;
        proof {
            reveal(Seq::filter);
            assert(all.take(i + 1).drop_last() =~= all.take(i as int));
            assert(all[i as int] == chunks@[i as int]@);
        }
        if !kept.contains(chunks[i].file_id.as_str()) {
            out.push(make_step(&chunks[i], label_id));
            assert(step_views(out@) =~= step_views(before).push(step(all[i as int])));
            assert(step_views(out@) =~= all.take(i + 1).filter(pred).map_values(step));
        }
    }
    assert(all.take(n as int) =~= all);
    out
}

/// A label that is added is there, all others stay in their order, and to add it once more
/// changes nothing.
pub proof fn adding_a_label(labels: Seq<Seq<char>>, label_id: Seq<char>)
    ensures
        with_label(labels, label_id).contains(label_id),
        labels.is_prefix_of(with_label(labels, label_id)),
        without_label(with_label(labels, label_id), label_id) == without_label(labels, label_id),
        with_label(with_label(labels, label_id), label_id) == with_label(labels, label_id),
{
    let now = with_label(labels, label_id);
    if !labels.contains(label_id) {
        assert(now[labels.len() as int] == label_id);
        reveal(Seq::filter);
        assert(now.drop_last() =~= labels);
    }
    assert(now.subrange(0, labels.len() as int) =~= labels);
}

/// A label that is removed is not there any more, and the others stay.
pub proof fn removing_a_label(labels: Seq<Seq<char>>, label_id: Seq<char>, other: Seq<char>)
    ensures
        !without_label(labels, label_id).contains(label_id),
        other != label_id ==> (without_label(labels, label_id).contains(other)
            <==> labels.contains(other)),
    decreases labels.len(),
{
    reveal(Seq::filter);
    let now = without_label(labels, label_id);
    if labels.len() > 0 {
        let rest = labels.drop_last();
        removing_a_label(rest, label_id, other);
        let before = without_label(rest, label_id);
        let last = labels.last();
        assert(labels =~= rest.push(last));
        if last != label_id {
            assert(now =~= before.push(last));
            if now.contains(label_id) {
                let k = choose|k: int| 0 <= k < now.len() && now[k] == label_id;
                assert(before[k] == label_id);
            }
        }
        if other != label_id {
            if labels.contains(other) {
                let k = choose|k: int| 0 <= k < labels.len() && labels[k] == other;
                if k < rest.len() {
                    assert(rest[k] == other);
                    let m = choose|m: int| 0 <= m < before.len() && before[m] == other;
                    assert(now[m] == other);
                } else {
                    assert(now[now.len() - 1] == other);
                }
            }
            if now.contains(other) {
                let k = choose|k: int| 0 <= k < now.len() && now[k] == other;
                if last != label_id && k == before.len() {
                    assert(labels[labels.len() - 1] == other);
                } else {
                    assert(before[k] == other);
                    let m = choose|m: int| 0 <= m < rest.len() && rest[m] == other;
                    assert(labels[m] == other);
                }
            }
        }
    }
}

/// To remove a label that was added gives the labels from before back, if it was not among
/// them.
pub proof fn removing_undoes_adding(labels: Seq<Seq<char>>, label_id: Seq<char>)
    requires
        !labels.contains(label_id),
    ensures
        without_label(with_label(labels, label_id), label_id) == labels,
{
    adding_a_label(labels, label_id);
    lemma_nothing_to_remove(labels, label_id);
}

proof fn lemma_nothing_to_remove(labels: Seq<Seq<char>>, label_id: Seq<char>)
    requires
        !labels.contains(label_id),
    ensures
        without_label(labels, label_id) == labels,
    decreases labels.len(),
{
    reveal(Seq::filter);
    if labels.len() > 0 {
        let rest = labels.drop_last();
        assert forall|k: int| 0 <= k < rest.len() implies rest[k] != label_id by {
            assert(labels[k] == rest[k]);
        }
        assert(labels[labels.len() - 1] == labels.last());
        lemma_nothing_to_remove(rest, label_id);
        assert(labels =~= rest.push(labels.last()));
    }
}

/// What becomes of a stored chunk of a label in a cleanup: the chunk itself, the chunk with
/// other labels, or nothing.
pub open spec fn after_cleanup(
    row: ChunkRowView,
    label_id: Seq<char>,
    kept: Set<Seq<char>>,
) -> Option<ChunkRowView> {
    if kept.contains(row.file_id) {
        Some(row)
    } else {
        match step_for(row, label_id) {
            CleanupStepView::Delete(_) => None,
            CleanupStepView::Relabel(_, labels) => Some(
                ChunkRowView { active_label_ids: labels, ..row },
            ),
        }
    }
}

/// A cleanup leaves a label to the chunks of the files that still have it and to no others;
/// what is left of the others keeps at least one label, and no other label is touched.
pub proof fn cleanup_leaves_the_label_to_kept_files(
    row: ChunkRowView,
    label_id: Seq<char>,
    kept: Set<Seq<char>>,
    other: Seq<char>,
)
    requires
        other != label_id,
    ensures
        match after_cleanup(row, label_id, kept) {
            Some(now) => {
                &&& !kept.contains(row.file_id) ==> !now.active_label_ids.contains(label_id)
                &&& !kept.contains(row.file_id) ==> now.active_label_ids.len() > 0
                &&& kept.contains(row.file_id) ==> now == row
                &&& now.active_label_ids.contains(other) <==> row.active_label_ids.contains(other)
            },
            None => !kept.contains(row.file_id) && !row.active_label_ids.contains(other),
        },
{
    removing_a_label(row.active_label_ids, label_id, other);
    if without_label(row.active_label_ids, label_id).contains(other) {
        let left = without_label(row.active_label_ids, label_id);
        let k = choose|k: int| 0 <= k < left.len() && left[k] == other;
        assert(left.len() > 0);
    }
}

/// When a label is added to a file, each of its stored chunks is named with its own identifier
/// and gets the label behind those that it has.
pub proof fn added_labels_reach_every_chunk(rows: Seq<ChunkRowView>, label_id: Seq<char>, i: int)
    requires
        0 <= i < rows.len(),
    ensures
        ({
            let updates = added_to(rows, label_id);
            let (id, labels) = updates[i];
            &&& updates.len() == rows.len()
            &&& id == rows[i].point_id
            &&& labels.contains(label_id)
            &&& rows[i].active_label_ids.is_prefix_of(labels)
            &&& rows[i].active_label_ids.contains(label_id) ==> labels
                == rows[i].active_label_ids
            &&& !rows[i].active_label_ids.contains(label_id) ==> labels
                == rows[i].active_label_ids.push(label_id)
        }),
{
    adding_a_label(rows[i].active_label_ids, label_id);
}

/// A chunk that a label leaves is deleted exactly if it has no other label; else it keeps the
/// others, under its own identifier.
pub proof fn only_chunks_without_labels_are_deleted(row: ChunkRowView, label_id: Seq<char>)
    ensures
        match step_for(row, label_id) {
            CleanupStepView::Delete(id) => id == row.point_id && forall|i: int|
                0 <= i < row.active_label_ids.len() ==> #[trigger] row.active_label_ids[i]
                    == label_id,
            CleanupStepView::Relabel(id, labels) => {
                &&& id == row.point_id
                &&& labels.len() > 0
                &&& !labels.contains(label_id)
                &&& exists|i: int|
                    0 <= i < row.active_label_ids.len() && #[trigger] row.active_label_ids[i]
                        != label_id
            },
        },
{
    let all = row.active_label_ids;
    let left = without_label(all, label_id);
    removing_a_label(all, label_id, label_id);
    if left.len() == 0 {
        assert forall|i: int| 0 <= i < all.len() implies #[trigger] all[i] == label_id by {
            removing_a_label(all, label_id, all[i]);
            if all[i] != label_id {
                assert(left.contains(all[i]));
            }
        }
    } else {
        let other = left[0];
        assert(left.contains(other));
        removing_a_label(all, label_id, other);
        let i = choose|i: int| 0 <= i < all.len() && all[i] == other;
        assert(all[i] != label_id);
    }
}

/// A cleanup deals with every chunk of the files that no longer have the label, and with no
/// other chunk.
pub proof fn cleanup_deals_with_all_other_files(
    rows: Seq<ChunkRowView>,
    label_id: Seq<char>,
    kept: Set<Seq<char>>,
)
    ensures
        forall|i: int|
            0 <= i < rows.len() && !kept.contains((#[trigger] rows[i]).file_id) ==> cleanup(
                rows,
                label_id,
                kept,
            ).contains(step_for(rows[i], label_id)),
        forall|k: int|
            0 <= k < cleanup(rows, label_id, kept).len() ==> exists|i: int|
                0 <= i < rows.len() && !kept.contains((#[trigger] rows[i]).file_id) && (
                #[trigger] cleanup(rows, label_id, kept)[k]) == step_for(rows[i], label_id),
{
    let pred = |r: ChunkRowView| !kept.contains(r.file_id);
    let left = rows.filter(pred);
    let steps = cleanup(rows, label_id, kept);
    assert forall|i: int|
        0 <= i < rows.len() && !kept.contains((#[trigger] rows[i]).file_id) implies steps.contains(
        step_for(rows[i], label_id),
    ) by {
        rows.lemma_filter_contains(pred, i);
        let k = choose|k: int| 0 <= k < left.len() && left[k] == rows[i];
        assert(steps[k] == step_for(rows[i], label_id));
    }
    assert forall|k: int| 0 <= k < steps.len() implies exists|i: int|
        0 <= i < rows.len() && !kept.contains((#[trigger] rows[i]).file_id) && (
        #[trigger] steps[k]) == step_for(rows[i], label_id) by {
        rows.lemma_filter_pred(pred, k);
        rows.lemma_filter_contains_rev(pred, left[k]);
        let i = choose|i: int| 0 <= i < rows.len() && rows[i] == left[k];
        assert(steps[k] == step_for(rows[i], label_id));
    }
}

}
